//! Logging in: what the server answers, and the tokens of a session.
use vstd::prelude::*;

pub use crate::srp::{
    b64_decode, decode_modulus, expand_hash, extract_clearsign_payload, hash_password, AuthInfo,
    SrpAuth, SrpProofs,
};

use crate::error::{CaptchaChallenge, ProtonError};
use crate::fields;
use crate::fields::{
    check_row, read_int, read_int_or_zero, read_optional_int, read_optional_text,
    read_optional_texts, read_text,
};
use crate::json;
use crate::json::{copy_json, parse_json, Json, JsonModel};
use crate::models;
use crate::models::AuthTokens;
use crate::numbers;
use crate::numbers::{parse_i64, signed_decimal_text};
use crate::srp;
use crate::text;
use crate::text::{concat3, copy_text, is_empty, join_texts, push_text};

verus! {

broadcast use crate::text::lemma_texts_push;

// ---------------------------------------------------------------------
// Two factors
// ---------------------------------------------------------------------

/// The `2FA` field of a login.
#[derive(Debug, Clone, PartialEq, Eq)]
#[allow(non_snake_case)]
pub struct TwoFAField {
    /// 1 for TOTP, 2 for FIDO2, 3 for both.
    pub Enabled: i64,
    pub TOTP: i64,
}

/// The older `TwoFactor` field of a login.
#[derive(Debug, Clone, PartialEq, Eq)]
#[allow(non_snake_case)]
pub struct TwoFactorInfo {
    pub Enabled: Option<i64>,
    pub U2F: Option<Json>,
    pub TOTP: Option<i64>,
}

pub open spec fn or_zero(n: Option<i64>) -> int {
    match n {
        Some(n) => n as int,
        None => 0,
    }
}

/// Whether a code of a TOTP device is asked for.
pub open spec fn totp_required(
    two_fa: Option<TwoFAField>,
    two_factor: Option<TwoFactorInfo>,
) -> bool {
    ||| two_fa matches Some(f) && (f.Enabled == 1 || f.Enabled == 3 || f.TOTP == 1)
    ||| two_factor matches Some(f) && (or_zero(f.Enabled) == 1 || or_zero(f.Enabled) == 3
        || or_zero(f.TOTP) == 1)
}

/// Whether a security key is asked for and no TOTP device would do.
pub open spec fn fido2_only(two_fa: Option<TwoFAField>, two_factor: Option<TwoFactorInfo>) -> bool {
    &&& !totp_required(two_fa, two_factor)
    &&& (two_fa matches Some(f) && f.Enabled == 2) || (two_factor matches Some(f) && or_zero(
        f.Enabled,
    ) == 2)
}

fn zero_default(n: Option<i64>) -> (r: i64)
    ensures
        r == or_zero(n),
{
    match n {
        Some(n) => n,
        None => 0,
    }
}

/// Whether a code of a TOTP device is asked for.
pub fn is_totp_required(two_fa: &Option<TwoFAField>, two_factor: &Option<TwoFactorInfo>) -> (r:
    bool)
    ensures
        r == totp_required(*two_fa, *two_factor),
{
    if let Some(f) = two_fa {
        if f.Enabled == 1 || f.Enabled == 3 || f.TOTP == 1 {
            return true;
        }
    }
    if let Some(f) = two_factor {
        let enabled: i64 = zero_default(f.Enabled);
        let totp: i64 = zero_default(f.TOTP);
        if enabled == 1 || enabled == 3 || totp == 1 {
            return true;
        }
    }
    false
}

/// Whether a security key is asked for and no TOTP device would do.
pub fn is_fido2_only(two_fa: &Option<TwoFAField>, two_factor: &Option<TwoFactorInfo>) -> (r: bool)
    ensures
        r == fido2_only(*two_fa, *two_factor),
{
    let modern: bool = match two_fa {
        Some(f) => f.Enabled == 2,
        None => false,
    };
    let legacy: bool = match two_factor {
        Some(f) => zero_default(f.Enabled) == 2,
        None => false,
    };
    (modern || legacy) && !is_totp_required(two_fa, two_factor)
}

/// What a [`TwoFactorInfo`] holds.
#[verifier::ext_equal]
pub struct TwoFactorModel {
    pub enabled: Option<int>,
    pub u2f: Option<JsonModel>,
    pub totp: Option<int>,
}

impl View for TwoFactorInfo {
    type V = TwoFactorModel;

    open spec fn view(&self) -> TwoFactorModel {
        TwoFactorModel {
            enabled: fields::option_int(self.Enabled),
            u2f: match self.U2F {
                Some(j) => Some(j@),
                None => None,
            },
            totp: fields::option_int(self.TOTP),
        }
    }
}

/// The `TwoFactor` field: nothing when absent, null or a number.
pub open spec fn two_factor_of(v: Option<JsonModel>) -> Result<Option<TwoFactorModel>, Seq<char>> {
    match v {
        None => Ok(None),
        Some(JsonModel::Null) => Ok(None),
        Some(JsonModel::Number(_)) => Ok(None),
        Some(JsonModel::Object(o)) => match (
            fields::optional_int_of(JsonModel::Object(o), "Enabled"@, 0),
            fields::optional_int_of(JsonModel::Object(o), "TOTP"@, 2),
        ) {
            (Err(e), _) => Err(e),
            (_, Err(e)) => Err(e),
            (Ok(enabled), Ok(totp)) => Ok(
                Some(
                    TwoFactorModel {
                        enabled,
                        u2f: match json::get(JsonModel::Object(o), "U2F"@) {
                            Some(JsonModel::Null) => None,
                            other => other,
                        },
                        totp,
                    },
                ),
            ),
        },
        Some(_) => Err("invalid TwoFactor type"@),
    }
}

pub open spec fn option_two_factor(f: Option<TwoFactorInfo>) -> Option<TwoFactorModel> {
    match f {
        Some(f) => Some(f@),
        None => None,
    }
}

/// Reads the `TwoFactor` field.
pub fn deserialize_two_factor(v: Option<&Json>) -> (r: Result<Option<TwoFactorInfo>, String>)
    ensures
        match r {
            Ok(f) => two_factor_of(json::ref_model(v)) == Ok::<Option<TwoFactorModel>, Seq<char>>(
                option_two_factor(f),
            ),
            Err(e) => two_factor_of(json::ref_model(v)) == Err::<Option<TwoFactorModel>, Seq<char>>(
                e@,
            ),
        },
{
    let j: &Json = match v {
        None => return Ok(None),
        Some(j) => j,
    };
    match j {
        Json::Null => Ok(None),
        Json::Number(_) => Ok(None),
        Json::Object(o) => {
            proof {
                json::lemma_object_model(*o);
            }
            let enabled: Option<i64> = match read_optional_int(j, "Enabled", 0) {
                Ok(n) => n,
                Err(e) => return Err(e),
            };
            let totp: Option<i64> = match read_optional_int(j, "TOTP", 2) {
                Ok(n) => n,
                Err(e) => return Err(e),
            };
            let u2f: Option<Json> = match j.get("U2F") {
                None => None,
                Some(Json::Null) => None,
                Some(other) => Some(copy_json(other)),
            };
            Ok(Some(TwoFactorInfo { Enabled: enabled, U2F: u2f, TOTP: totp }))
        },
        _ => Err(copy_text("invalid TwoFactor type")),
    }
}

/// The `2FA` field: nothing when absent, null or a number.
pub open spec fn two_fa_of(v: Option<JsonModel>) -> Result<Option<(int, int)>, Seq<char>> {
    match v {
        None => Ok(None),
        Some(JsonModel::Null) => Ok(None),
        Some(JsonModel::Number(_)) => Ok(None),
        Some(JsonModel::Object(o)) => match (
            fields::int_or_zero_of(JsonModel::Object(o), "Enabled"@, 0),
            fields::int_or_zero_of(JsonModel::Object(o), "TOTP"@, 2),
        ) {
            (Err(e), _) => Err(e),
            (_, Err(e)) => Err(e),
            (Ok(enabled), Ok(totp)) => Ok(Some((enabled, totp))),
        },
        Some(_) => Err("invalid 2FA type"@),
    }
}

pub open spec fn option_two_fa(f: Option<TwoFAField>) -> Option<(int, int)> {
    match f {
        Some(f) => Some((f.Enabled as int, f.TOTP as int)),
        None => None,
    }
}

/// Reads the `2FA` field.
pub fn deserialize_two_fa_field(v: Option<&Json>) -> (r: Result<Option<TwoFAField>, String>)
    ensures
        match r {
            Ok(f) => two_fa_of(json::ref_model(v)) == Ok::<Option<(int, int)>, Seq<char>>(
                option_two_fa(f),
            ),
            Err(e) => two_fa_of(json::ref_model(v)) == Err::<Option<(int, int)>, Seq<char>>(e@),
        },
{
    let j: &Json = match v {
        None => return Ok(None),
        Some(j) => j,
    };
    match j {
        Json::Null => Ok(None),
        Json::Number(_) => Ok(None),
        Json::Object(o) => {
            proof {
                json::lemma_object_model(*o);
            }
            let enabled: i64 = match read_int_or_zero(j, "Enabled", 0) {
                Ok(n) => n,
                Err(e) => return Err(e),
            };
            let totp: i64 = match read_int_or_zero(j, "TOTP", 2) {
                Ok(n) => n,
                Err(e) => return Err(e),
            };
            Ok(Some(TwoFAField { Enabled: enabled, TOTP: totp }))
        },
        _ => Err(copy_text("invalid 2FA type")),
    }
}

// ---------------------------------------------------------------------
// Answers
// ---------------------------------------------------------------------

/// The answer to a login.
#[derive(Debug)]
#[allow(non_snake_case)]
pub struct LoginResponse {
    pub AccessToken: String,
    pub RefreshToken: String,
    pub UID: String,
    pub ExpiresIn: i64,
    pub ServerProof: String,
    pub TwoFactor: Option<TwoFactorInfo>,
    pub PasswordMode: Option<i64>,
    pub Scopes: Option<Vec<String>>,
    pub TwoFA: Option<TwoFAField>,
}

/// What a [`LoginResponse`] holds.
#[verifier::ext_equal]
pub struct LoginModel {
    pub access_token: Seq<char>,
    pub refresh_token: Seq<char>,
    pub uid: Seq<char>,
    pub expires_in: int,
    pub server_proof: Seq<char>,
    pub two_factor: Option<TwoFactorModel>,
    pub password_mode: Option<int>,
    pub scopes: Option<Seq<Seq<char>>>,
    pub two_fa: Option<(int, int)>,
}

impl View for LoginResponse {
    type V = LoginModel;

    open spec fn view(&self) -> LoginModel {
        LoginModel {
            access_token: self.AccessToken@,
            refresh_token: self.RefreshToken@,
            uid: self.UID@,
            expires_in: self.ExpiresIn as int,
            server_proof: self.ServerProof@,
            two_factor: option_two_factor(self.TwoFactor),
            password_mode: fields::option_int(self.PasswordMode),
            scopes: fields::option_texts(self.Scopes),
            two_fa: option_two_fa(self.TwoFA),
        }
    }
}

/// What a login is read from: an object, or an array with the fields in
/// this order. The first field that cannot be read decides the error.
pub open spec fn login_of(j: JsonModel) -> Result<LoginModel, Seq<char>> {
    if !models::is_row(j, 9) {
        Err(fields::not_a_row())
    } else {
        match fields::text_of(j, "AccessToken"@, 0) {
            Err(e) => Err(e),
            Ok(access_token) => match fields::text_of(j, "RefreshToken"@, 1) {
                Err(e) => Err(e),
                Ok(refresh_token) => match fields::text_of(j, "UID"@, 2) {
                    Err(e) => Err(e),
                    Ok(uid) => match fields::int_of(j, "ExpiresIn"@, 3) {
                        Err(e) => Err(e),
                        Ok(expires_in) => match fields::text_of(j, "ServerProof"@, 4) {
                            Err(e) => Err(e),
                            Ok(server_proof) => login_rest(
                                j,
                                access_token,
                                refresh_token,
                                uid,
                                expires_in,
                                server_proof,
                            ),
                        },
                    },
                },
            },
        }
    }
}

/// The fields of a login that may be absent.
pub open spec fn login_rest(
    j: JsonModel,
    access_token: Seq<char>,
    refresh_token: Seq<char>,
    uid: Seq<char>,
    expires_in: int,
    server_proof: Seq<char>,
) -> Result<LoginModel, Seq<char>> {
    match two_factor_of(models::row_field(j, "TwoFactor"@, 5)) {
        Err(e) => Err(e),
        Ok(two_factor) => match fields::optional_int_of(j, "PasswordMode"@, 6) {
            Err(e) => Err(e),
            Ok(password_mode) => match fields::optional_texts_of(j, "Scopes"@, 7) {
                Err(e) => Err(e),
                Ok(scopes) => match two_fa_of(models::row_field(j, "2FA"@, 8)) {
                    Err(e) => Err(e),
                    Ok(two_fa) => Ok(
                        LoginModel {
                            access_token,
                            refresh_token,
                            uid,
                            expires_in,
                            server_proof,
                            two_factor,
                            password_mode,
                            scopes,
                            two_fa,
                        },
                    ),
                },
            },
        },
    }
}

impl LoginResponse {
    /// Reads the answer to a login.
    pub fn from_json(j: &Json) -> (r: Result<LoginResponse, String>)
        ensures
            match r {
                Ok(l) => login_of(j@) == Ok::<LoginModel, Seq<char>>(l@),
                Err(e) => login_of(j@) == Err::<LoginModel, Seq<char>>(e@),
            },
    {
        check_row(j, 9)?;
        let access_token: String = read_text(j, "AccessToken", 0)?;
        let refresh_token: String = read_text(j, "RefreshToken", 1)?;
        let uid: String = read_text(j, "UID", 2)?;
        let expires_in: i64 = read_int(j, "ExpiresIn", 3)?;
        let server_proof: String = read_text(j, "ServerProof", 4)?;
        let two_factor: Option<TwoFactorInfo> = deserialize_two_factor(
            models::field(j, "TwoFactor", 5),
        )?;
        let password_mode: Option<i64> = read_optional_int(j, "PasswordMode", 6)?;
        let scopes: Option<Vec<String>> = read_optional_texts(j, "Scopes", 7)?;
        let two_fa: Option<TwoFAField> = deserialize_two_fa_field(models::field(j, "2FA", 8))?;
        Ok(
            LoginResponse {
                AccessToken: access_token,
                RefreshToken: refresh_token,
                UID: uid,
                ExpiresIn: expires_in,
                ServerProof: server_proof,
                TwoFactor: two_factor,
                PasswordMode: password_mode,
                Scopes: scopes,
                TwoFA: two_fa,
            },
        )
    }
}

/// What the server sends before a login: modulus, ephemeral value, version,
/// salt and session.
pub open spec fn info_of(j: JsonModel) -> Result<
    (Seq<char>, Seq<char>, int, Seq<char>, Seq<char>),
    Seq<char>,
> {
    if !models::is_row(j, 6) {
        Err(fields::not_a_row())
    } else {
        match fields::text_of(j, "Modulus"@, 0) {
            Err(e) => Err(e),
            Ok(modulus) => match fields::text_of(j, "ServerEphemeral"@, 1) {
                Err(e) => Err(e),
                Ok(ephemeral) => match fields::int_of(j, "Version"@, 2) {
                    Err(e) => Err(e),
                    Ok(version) => match fields::text_of(j, "Salt"@, 3) {
                        Err(e) => Err(e),
                        Ok(salt) => match fields::text_of(j, "SRPSession"@, 4) {
                            Err(e) => Err(e),
                            Ok(session) => match two_factor_of(
                                models::row_field(j, "TwoFactor"@, 5),
                            ) {
                                Err(e) => Err(e),
                                Ok(_) => Ok((modulus, ephemeral, version, salt, session)),
                            },
                        },
                    },
                },
            },
        }
    }
}

/// Reads what the server sends before a login.
pub fn read_auth_info(j: &Json) -> (r: Result<AuthInfo, String>)
    ensures
        match r {
            Ok(i) => info_of(j@) == Ok::<
                (Seq<char>, Seq<char>, int, Seq<char>, Seq<char>),
                Seq<char>,
            >((i.Modulus@, i.ServerEphemeral@, i.Version as int, i.Salt@, i.SRPSession@)),
            Err(e) => info_of(j@) == Err::<
                (Seq<char>, Seq<char>, int, Seq<char>, Seq<char>),
                Seq<char>,
            >(e@),
        },
{
    check_row(j, 6)?;
    let modulus: String = read_text(j, "Modulus", 0)?;
    let ephemeral: String = read_text(j, "ServerEphemeral", 1)?;
    let version: i64 = read_int(j, "Version", 2)?;
    let salt: String = read_text(j, "Salt", 3)?;
    let session: String = read_text(j, "SRPSession", 4)?;
    let _two_factor: Option<TwoFactorInfo> = deserialize_two_factor(
        models::field(j, "TwoFactor", 5),
    )?;
    Ok(
        AuthInfo {
            Modulus: modulus,
            ServerEphemeral: ephemeral,
            Version: version,
            Salt: salt,
            SRPSession: session,
        },
    )
}

/// The answer to a code of the second factor.
#[derive(Debug)]
#[allow(non_snake_case)]
pub struct TwoFAResponse {
    pub Code: i64,
    pub Scope: Option<String>,
    pub Scopes: Option<Vec<String>>,
    pub Error: Option<String>,
}

/// Code and error of the answer to a code of the second factor.
pub open spec fn two_fa_answer_of(j: JsonModel) -> Result<
    (int, Option<Seq<char>>, Option<Seq<Seq<char>>>, Option<Seq<char>>),
    Seq<char>,
> {
    if !models::is_row(j, 4) {
        Err(fields::not_a_row())
    } else {
        match fields::int_or_zero_of(j, "Code"@, 0) {
            Err(e) => Err(e),
            Ok(code) => match fields::optional_text_of(j, "Scope"@, 1) {
                Err(e) => Err(e),
                Ok(scope) => match fields::optional_texts_of(j, "Scopes"@, 2) {
                    Err(e) => Err(e),
                    Ok(scopes) => match fields::optional_text_of(j, "Error"@, 3) {
                        Err(e) => Err(e),
                        Ok(error) => Ok((code, scope, scopes, error)),
                    },
                },
            },
        }
    }
}

impl TwoFAResponse {
    /// Reads the answer to a code of the second factor.
    pub fn from_json(j: &Json) -> (r: Result<TwoFAResponse, String>)
        ensures
            match r {
                Ok(a) => two_fa_answer_of(j@) == Ok::<
                    (int, Option<Seq<char>>, Option<Seq<Seq<char>>>, Option<Seq<char>>),
                    Seq<char>,
                >(
                    (
                        a.Code as int,
                        text::option_text(a.Scope),
                        fields::option_texts(a.Scopes),
                        text::option_text(a.Error),
                    ),
                ),
                Err(e) => two_fa_answer_of(j@) == Err::<
                    (int, Option<Seq<char>>, Option<Seq<Seq<char>>>, Option<Seq<char>>),
                    Seq<char>,
                >(e@),
            },
    {
        check_row(j, 4)?;
        let code: i64 = read_int_or_zero(j, "Code", 0)?;
        let scope: Option<String> = read_optional_text(j, "Scope", 1)?;
        let scopes: Option<Vec<String>> = read_optional_texts(j, "Scopes", 2)?;
        let error: Option<String> = read_optional_text(j, "Error", 3)?;
        Ok(TwoFAResponse { Code: code, Scope: scope, Scopes: scopes, Error: error })
    }
}

/// The answer to a refresh.
#[derive(Debug)]
#[allow(non_snake_case)]
pub struct RefreshResponse {
    pub AccessToken: String,
    pub RefreshToken: String,
    pub UID: String,
    pub ExpiresIn: i64,
    pub Scope: Option<String>,
    pub Scopes: Option<Vec<String>>,
}

/// What a [`RefreshResponse`] holds.
#[verifier::ext_equal]
pub struct RefreshModel {
    pub access_token: Seq<char>,
    pub refresh_token: Seq<char>,
    pub uid: Seq<char>,
    pub expires_in: int,
    pub scope: Option<Seq<char>>,
    pub scopes: Option<Seq<Seq<char>>>,
}

impl View for RefreshResponse {
    type V = RefreshModel;

    open spec fn view(&self) -> RefreshModel {
        RefreshModel {
            access_token: self.AccessToken@,
            refresh_token: self.RefreshToken@,
            uid: self.UID@,
            expires_in: self.ExpiresIn as int,
            scope: text::option_text(self.Scope),
            scopes: fields::option_texts(self.Scopes),
        }
    }
}

pub open spec fn refresh_of(j: JsonModel) -> Result<RefreshModel, Seq<char>> {
    if !models::is_row(j, 6) {
        Err(fields::not_a_row())
    } else {
        match fields::text_of(j, "AccessToken"@, 0) {
            Err(e) => Err(e),
            Ok(access_token) => match fields::text_of(j, "RefreshToken"@, 1) {
                Err(e) => Err(e),
                Ok(refresh_token) => match fields::text_of(j, "UID"@, 2) {
                    Err(e) => Err(e),
                    Ok(uid) => match fields::int_of(j, "ExpiresIn"@, 3) {
                        Err(e) => Err(e),
                        Ok(expires_in) => match fields::optional_text_of(j, "Scope"@, 4) {
                            Err(e) => Err(e),
                            Ok(scope) => match fields::optional_texts_of(j, "Scopes"@, 5) {
                                Err(e) => Err(e),
                                Ok(scopes) => Ok(
                                    RefreshModel {
                                        access_token,
                                        refresh_token,
                                        uid,
                                        expires_in,
                                        scope,
                                        scopes,
                                    },
                                ),
                            },
                        },
                    },
                },
            },
        }
    }
}

impl RefreshResponse {
    /// Reads the answer to a refresh.
    pub fn from_json(j: &Json) -> (r: Result<RefreshResponse, String>)
        ensures
            match r {
                Ok(a) => refresh_of(j@) == Ok::<RefreshModel, Seq<char>>(a@),
                Err(e) => refresh_of(j@) == Err::<RefreshModel, Seq<char>>(e@),
            },
    {
        check_row(j, 6)?;
        let access_token: String = read_text(j, "AccessToken", 0)?;
        let refresh_token: String = read_text(j, "RefreshToken", 1)?;
        let uid: String = read_text(j, "UID", 2)?;
        let expires_in: i64 = read_int(j, "ExpiresIn", 3)?;
        let scope: Option<String> = read_optional_text(j, "Scope", 4)?;
        let scopes: Option<Vec<String>> = read_optional_texts(j, "Scopes", 5)?;
        Ok(
            RefreshResponse {
                AccessToken: access_token,
                RefreshToken: refresh_token,
                UID: uid,
                ExpiresIn: expires_in,
                Scope: scope,
                Scopes: scopes,
            },
        )
    }
}

// ---------------------------------------------------------------------
// Human verification
// ---------------------------------------------------------------------

/// The code of an answer: an integer, or a string of one.
pub open spec fn code_of(v: JsonModel) -> Option<int> {
    match v {
        JsonModel::Number(n) => n.int,
        JsonModel::Text(s) => numbers::within(
            numbers::signed_value(s),
            i64::MIN as int,
            i64::MAX as int,
        ),
        _ => None,
    }
}

/// The strings of a list, what is no string left out.
pub open spec fn strings_in(a: Seq<JsonModel>) -> Seq<Seq<char>>
    decreases a.len(),
{
    if a.len() == 0 {
        seq![]
    } else {
        match a.last() {
            JsonModel::Text(s) => strings_in(a.drop_last()).push(s),
            _ => strings_in(a.drop_last()),
        }
    }
}

/// What a [`CaptchaChallenge`] holds.
#[verifier::ext_equal]
pub struct ChallengeModel {
    pub methods: Seq<Seq<char>>,
    pub token: Seq<char>,
    pub web_url: Seq<char>,
}

impl View for CaptchaChallenge {
    type V = ChallengeModel;

    open spec fn view(&self) -> ChallengeModel {
        ChallengeModel {
            methods: text::texts(self.methods@),
            token: self.token@,
            web_url: self.web_url@,
        }
    }
}

/// The page where a challenge is taken, where the answer names none.
pub open spec fn challenge_url(methods: Seq<Seq<char>>, token: Seq<char>) -> Seq<char> {
    "https://verify.proton.me/?methods="@ + text::join(methods, ","@) + "&token="@ + token
}

/// The challenge of an answer: code 9001 with methods and a token. Any other
/// shape is none.
pub open spec fn challenge_of(j: JsonModel) -> Option<ChallengeModel> {
    match (json::get(j, "Code"@), json::get(j, "Details"@)) {
        (Some(code), Some(details)) => match (
            json::get(details, "HumanVerificationMethods"@),
            json::get(details, "HumanVerificationToken"@),
        ) {
            (Some(JsonModel::Array(list)), Some(JsonModel::Text(token))) => {
                let methods = strings_in(list);
                if code_of(code) != Some(9001int) || methods.len() == 0 || token.len() == 0 {
                    None
                } else {
                    Some(
                        ChallengeModel {
                            methods,
                            token,
                            web_url: match json::get(details, "WebUrl"@) {
                                Some(JsonModel::Text(u)) => if u.len() > 0 {
                                    u
                                } else {
                                    challenge_url(methods, token)
                                },
                                _ => challenge_url(methods, token),
                            },
                        },
                    )
                }
            },
            _ => None,
        },
        _ => None,
    }
}

fn code_value(v: &Json) -> (r: Option<i64>)
    ensures
        match r {
            Some(n) => code_of(v@) == Some(n as int),
            None => code_of(v@) is None,
        },
{
    match v {
        Json::Number(n) => n.int,
        Json::Text(s) => parse_i64(s.as_str()),
        _ => None,
    }
}

fn collect_strings(a: &Vec<Json>) -> (r: Vec<String>)
    ensures
        text::texts(r@) == strings_in(json::models(a@)),
{
    let mut out: Vec<String> = Vec::new();
    let ghost all = json::models(a@);
    let mut i: usize = 0;
    assert(all.take(0) =~= seq![]);
    assert(text::texts(out@) =~= seq![]);
    while i < a.len()
        invariant
            i <= a@.len(),
            all == json::models(a@),
            text::texts(out@) == strings_in(all.take(i as int)),
        decreases a@.len() - i,
    {
        assert(all.take(i + 1).drop_last() =~= all.take(i as int));
        assert(all.take(i + 1).last() == a@[i as int]@);
        if let Json::Text(s) = &a[i] {
            out.push(copy_text(s.as_str()));
        }
        i = i + 1;
    }
    assert(all.take(all.len() as int) =~= all);
    out
}

pub open spec fn option_challenge(c: Option<CaptchaChallenge>) -> Option<ChallengeModel> {
    match c {
        Some(c) => Some(c@),
        None => None,
    }
}

/// The challenge of an answer that was parsed.
pub fn captcha_of(v: &Json) -> (r: Option<CaptchaChallenge>)
    ensures
        option_challenge(r) == challenge_of(v@),
{
    let code: i64 = match v.get("Code") {
        Some(c) => match code_value(c) {
            Some(n) => n,
            None => return None,
        },
        None => return None,
    };
    if code != 9001 {
        return None;
    }
    let details: &Json = match v.get("Details") {
        Some(d) => d,
        None => return None,
    };
    let methods: Vec<String> = match details.get("HumanVerificationMethods") {
        Some(Json::Array(a)) => {
            proof {
                json::lemma_array_model(*a);
            }
            collect_strings(a)
        },
        _ => return None,
    };
    assert(text::texts(methods@).len() == methods@.len());
    if methods.len() == 0 {
        return None;
    }
    let token: String = match details.get("HumanVerificationToken") {
        Some(Json::Text(t)) => copy_text(t.as_str()),
        _ => return None,
    };
    if is_empty(token.as_str()) {
        return None;
    }
    let given: Option<String> = match details.get("WebUrl") {
        Some(Json::Text(u)) => if is_empty(u.as_str()) {
            None
        } else {
            Some(copy_text(u.as_str()))
        },
        _ => None,
    };
    let web_url: String = match given {
        Some(u) => u,
        None => {
            let list: String = join_texts(&methods, ",");
            let mut url: String = concat3(
                "https://verify.proton.me/?methods=",
                list.as_str(),
                "&token=",
            );
            push_text(&mut url, token.as_str());
            url
        },
    };
    Some(CaptchaChallenge { methods, token, web_url })
}

/// The challenge of a body.
pub open spec fn challenge_in(body: Seq<char>) -> Option<ChallengeModel> {
    match json::json_of_text(body) {
        Ok(j) => challenge_of(j),
        Err(_) => None,
    }
}

/// Reads the challenge of a body; none for any other body, whether it is JSON
/// or not.
pub fn parse_captcha_challenge(body: &str) -> (r: Option<CaptchaChallenge>)
    ensures
        option_challenge(r) == challenge_in(body@),
{
    match parse_json(body) {
        Ok(j) => captcha_of(&j),
        Err(_) => None,
    }
}

// ---------------------------------------------------------------------
// Outcomes
// ---------------------------------------------------------------------

/// Where a login stands.
#[derive(Debug)]
pub enum LoginState {
    Authenticated { tokens: AuthTokens, scopes: Vec<String> },
    /// The session is locked until the code of the second factor is sent; the
    /// tokens stay the same.
    Requires2FA { access_token: String, refresh_token: String, uid: String, scopes: Vec<String> },
}

/// What [`AuthTokens`] hold: access token, refresh token, uid.
pub open spec fn tokens_view(t: AuthTokens) -> (Seq<char>, Seq<char>, Seq<char>) {
    (t.access_token@, t.refresh_token@, t.uid@)
}

pub open spec fn scopes_or_none(s: Option<Seq<Seq<char>>>) -> Seq<Seq<char>> {
    match s {
        Some(s) => s,
        None => seq![],
    }
}

/// The message for an account that only a security key unlocks.
pub open spec fn fido2_message() -> Seq<char> {
    "FIDO2 two-factor authentication is required but not supported by this client. Please enable TOTP two-factor authentication in your Proton account settings (it can be used alongside your security key), then try again."@
}

fn scopes_or_empty(s: Option<Vec<String>>) -> (r: Vec<String>)
    ensures
        text::texts(r@) == scopes_or_none(fields::option_texts(s)),
{
    match s {
        Some(s) => s,
        None => {
            let none: Vec<String> = Vec::new();
            assert(text::texts(none@) =~= seq![]);
            none
        },
    }
}

/// Where a login stands after its answer: refused when only a security key
/// would do, locked when a code is asked for, open else.
pub fn login_state(resp: LoginResponse) -> (r: Result<LoginState, ProtonError>)
    ensures
        if fido2_only(resp.TwoFA, resp.TwoFactor) {
            r matches Err(e) && srp::is_auth(e, fido2_message())
        } else if totp_required(resp.TwoFA, resp.TwoFactor) {
            r matches Ok(LoginState::Requires2FA { access_token, refresh_token, uid, scopes })
                && access_token@ == resp.AccessToken@ && refresh_token@ == resp.RefreshToken@
                && uid@ == resp.UID@ && text::texts(scopes@) == scopes_or_none(
                fields::option_texts(resp.Scopes),
            )
        } else {
            r matches Ok(LoginState::Authenticated { tokens, scopes }) && tokens_view(tokens) == (
                resp.AccessToken@,
                resp.RefreshToken@,
                resp.UID@,
            ) && text::texts(scopes@) == scopes_or_none(fields::option_texts(resp.Scopes))
        },
{
    if is_fido2_only(&resp.TwoFA, &resp.TwoFactor) {
        return Err(
            ProtonError::Auth(
                copy_text(
                    "FIDO2 two-factor authentication is required but not supported by this client. Please enable TOTP two-factor authentication in your Proton account settings (it can be used alongside your security key), then try again.",
                ),
            ),
        );
    }
    let locked: bool = is_totp_required(&resp.TwoFA, &resp.TwoFactor);
    let scopes: Vec<String> = scopes_or_empty(resp.Scopes);
    if locked {
        Ok(
            LoginState::Requires2FA {
                access_token: resp.AccessToken,
                refresh_token: resp.RefreshToken,
                uid: resp.UID,
                scopes,
            },
        )
    } else {
        Ok(
            LoginState::Authenticated {
                tokens: AuthTokens {
                    access_token: resp.AccessToken,
                    refresh_token: resp.RefreshToken,
                    uid: resp.UID,
                },
                scopes,
            },
        )
    }
}

/// What a refused request is answered with: the challenge, where the body
/// holds one, else the status and the body.
pub open spec fn refused(
    e: ProtonError,
    what: Seq<char>,
    status: Seq<char>,
    body: Seq<char>,
) -> bool {
    match challenge_in(body) {
        Some(c) => e matches ProtonError::Captcha(x) && x@ == c,
        None => srp::is_auth(e, what + status + ": "@ + body),
    }
}

fn refusal(what: &str, status: &str, body: &str) -> (r: ProtonError)
    ensures
        refused(r, what@, status@, body@),
{
    match parse_captcha_challenge(body) {
        Some(c) => ProtonError::Captcha(c),
        None => {
            let mut m: String = concat3(what, status, ": ");
            push_text(&mut m, body);
            ProtonError::Auth(m)
        },
    }
}

/// What an answer with this status and body comes to for a login.
pub fn login_answer(success: bool, status: &str, body: &str) -> (r: Result<
    LoginResponse,
    ProtonError,
>)
    ensures
        if !success {
            r matches Err(e) && refused(e, "Auth POST failed "@, status@, body@)
        } else {
            match json::json_of_text(body@) {
                Err(m) => r matches Err(ProtonError::Serde(x)) && x@ == m,
                Ok(j) => match login_of(j) {
                    Ok(l) => r matches Ok(x) && x@ == l,
                    Err(m) => r matches Err(ProtonError::Serde(x)) && x@ == m,
                },
            }
        },
{
    if !success {
        return Err(refusal("Auth POST failed ", status, body));
    }
    match parse_json(body) {
        Ok(j) => match LoginResponse::from_json(&j) {
            Ok(l) => Ok(l),
            Err(m) => Err(ProtonError::Serde(m)),
        },
        Err(m) => Err(ProtonError::Serde(m)),
    }
}

/// What an answer with this status and body comes to for a code of the
/// second factor. On success the tokens are the ones that were there: the
/// server unlocks the session and hands out none.
pub fn two_fa_answer(
    success: bool,
    status: &str,
    body: &str,
    access_token: &str,
    refresh_token: &str,
    uid: &str,
) -> (r: Result<AuthTokens, ProtonError>)
    ensures
        if !success {
            r matches Err(e) && refused(e, "2FA POST failed "@, status@, body@)
        } else {
            match json::json_of_text(body@) {
                Err(m) => r matches Err(ProtonError::Serde(x)) && x@ == m,
                Ok(j) => match two_fa_answer_of(j) {
                    Err(m) => r matches Err(ProtonError::Serde(x)) && x@ == m,
                    Ok((code, _, _, error)) => if code == 1000 {
                        r matches Ok(t) && tokens_view(t) == (access_token@, refresh_token@, uid@)
                    } else {
                        r matches Err(e) && srp::is_auth(
                            e,
                            "2FA rejected, code "@ + numbers::signed_decimal(code) + ": "@ + (
                            match error {
                                Some(m) => m,
                                None => seq![],
                            }),
                        )
                    },
                },
            }
        },
{
    if !success {
        return Err(refusal("2FA POST failed ", status, body));
    }
    let j: Json = match parse_json(body) {
        Ok(j) => j,
        Err(m) => return Err(ProtonError::Serde(m)),
    };
    let answer: TwoFAResponse = match TwoFAResponse::from_json(&j) {
        Ok(a) => a,
        Err(m) => return Err(ProtonError::Serde(m)),
    };
    if answer.Code != 1000 {
        let code: String = signed_decimal_text(answer.Code);
        let mut m: String = concat3("2FA rejected, code ", code.as_str(), ": ");
        let error: String = match answer.Error {
            Some(e) => e,
            None => String::new(),
        };
        push_text(&mut m, error.as_str());
        return Err(ProtonError::Auth(m));
    }
    Ok(
        AuthTokens {
            access_token: copy_text(access_token),
            refresh_token: copy_text(refresh_token),
            uid: copy_text(uid),
        },
    )
}

/// What an answer with this status and body comes to for a refresh: the new
/// tokens, the scope and the scopes.
pub fn refresh_answer(success: bool, status: &str, body: &str) -> (r: Result<
    (AuthTokens, Option<String>, Vec<String>),
    ProtonError,
>)
    ensures
        if !success {
            r matches Err(e) && srp::is_auth(
                e,
                "Refresh POST failed "@ + status@ + ": "@ + body@,
            )
        } else {
            match json::json_of_text(body@) {
                Err(m) => r matches Err(ProtonError::Serde(x)) && x@ == m,
                Ok(j) => match refresh_of(j) {
                    Err(m) => r matches Err(ProtonError::Serde(x)) && x@ == m,
                    Ok(a) => r matches Ok((t, scope, scopes)) && tokens_view(t) == (
                        a.access_token,
                        a.refresh_token,
                        a.uid,
                    ) && text::option_text(scope) == a.scope && text::texts(scopes@)
                        == scopes_or_none(a.scopes),
                },
            }
        },
{
    if !success {
        let mut m: String = concat3("Refresh POST failed ", status, ": ");
        push_text(&mut m, body);
        return Err(ProtonError::Auth(m));
    }
    let j: Json = match parse_json(body) {
        Ok(j) => j,
        Err(m) => return Err(ProtonError::Serde(m)),
    };
    match RefreshResponse::from_json(&j) {
        Ok(a) => {
            let scopes: Vec<String> = scopes_or_empty(a.Scopes);
            Ok(
                (
                    AuthTokens {
                        access_token: a.AccessToken,
                        refresh_token: a.RefreshToken,
                        uid: a.UID,
                    },
                    a.Scope,
                    scopes,
                ),
            )
        },
        Err(m) => Err(ProtonError::Serde(m)),
    }
}

} // verus!
