//! The tokens of a session and when they are refreshed.
use vstd::prelude::*;

use crate::auth;
use crate::auth::LoginState;
use crate::error::ProtonError;
use crate::models::AuthTokens;
use crate::srp;
use crate::text;
use crate::text::{concat3, copy_text, is_empty, join_texts};

verus! {

/// How long fresh tokens are taken to last: an hour, in milliseconds.
pub const TOKEN_LIFETIME_MS: u64 = 3600000;

/// The tokens of a session. Times are milliseconds of a clock that only goes
/// forward; the caller reads it.
#[derive(Debug)]
pub struct TokenManager {
    tokens: Option<AuthTokens>,
    expires_at: Option<u64>,
    last_refresh_scopes: Option<(Option<String>, Vec<String>)>,
}

/// What a [`TokenManager`] holds.
#[verifier::ext_equal]
pub struct Session {
    pub tokens: Option<(Seq<char>, Seq<char>, Seq<char>)>,
    pub expires_at: Option<int>,
    pub scopes: Option<(Option<Seq<char>>, Seq<Seq<char>>)>,
}

pub open spec fn option_tokens(t: Option<AuthTokens>) -> Option<(Seq<char>, Seq<char>, Seq<char>)> {
    match t {
        Some(t) => Some(auth::tokens_view(t)),
        None => None,
    }
}

impl View for TokenManager {
    type V = Session;

    closed spec fn view(&self) -> Session {
        Session {
            tokens: option_tokens(self.tokens),
            expires_at: match self.expires_at {
                Some(t) => Some(t as int),
                None => None,
            },
            scopes: match self.last_refresh_scopes {
                Some((scope, scopes)) => Some((text::option_text(scope), text::texts(scopes@))),
                None => None,
            },
        }
    }
}

/// Whether a session has to be refreshed: its time is over or was never
/// known.
pub open spec fn expired(s: Session, now: int) -> bool {
    match s.expires_at {
        Some(t) => now >= t,
        None => true,
    }
}

/// What is to be done for an access token.
#[derive(Debug, PartialEq, Eq)]
pub enum AccessStep {
    /// The token is there.
    Ready(String),
    /// A refresh comes first.
    Refresh { refresh_token: String, uid: String },
}

pub ghost enum StepModel {
    Ready(Seq<char>),
    Refresh { refresh_token: Seq<char>, uid: Seq<char> },
}

impl View for AccessStep {
    type V = StepModel;

    open spec fn view(&self) -> StepModel {
        match *self {
            AccessStep::Ready(t) => StepModel::Ready(t@),
            AccessStep::Refresh { refresh_token, uid } => StepModel::Refresh {
                refresh_token: refresh_token@,
                uid: uid@,
            },
        }
    }
}

/// What is to be done for an access token, or the message why there is none.
pub open spec fn access_step_of(s: Session, now: int) -> Result<StepModel, Seq<char>> {
    match s.tokens {
        None => Err("No tokens"@),
        Some((access, refresh, uid)) => if !expired(s, now) {
            Ok(StepModel::Ready(access))
        } else if refresh.len() == 0 {
            Err("No refresh token available"@)
        } else {
            Ok(StepModel::Refresh { refresh_token: refresh, uid })
        },
    }
}

/// The session after a login: open with its tokens, or unchanged while it is
/// locked.
pub open spec fn after_login(s: Session, state: LoginState, now: int) -> Session {
    match state {
        LoginState::Authenticated { tokens, .. } => Session {
            tokens: Some(auth::tokens_view(tokens)),
            expires_at: Some(now + TOKEN_LIFETIME_MS),
            ..s
        },
        LoginState::Requires2FA { .. } => s,
    }
}

impl TokenManager {
    pub fn new() -> (r: TokenManager)
        ensures
            r@ == (Session { tokens: None, expires_at: None, scopes: None }),
    {
        TokenManager { tokens: None, expires_at: None, last_refresh_scopes: None }
    }

    /// Takes in a login.
    pub fn login(&mut self, state: &LoginState, now: u64)
        requires
            now <= u64::MAX - TOKEN_LIFETIME_MS,
        ensures
            final(self)@ == after_login(old(self)@, *state, now as int),
    {
        if let LoginState::Authenticated { tokens, .. } = state {
            self.expires_at = Some(now + TOKEN_LIFETIME_MS);
            self.tokens = Some(
                AuthTokens {
                    access_token: copy_text(tokens.access_token.as_str()),
                    refresh_token: copy_text(tokens.refresh_token.as_str()),
                    uid: copy_text(tokens.uid.as_str()),
                },
            );
        }
    }

    /// Takes in the tokens of a session that the second factor unlocked.
    pub fn submit_2fa(&mut self, tokens: AuthTokens, now: u64)
        requires
            now <= u64::MAX - TOKEN_LIFETIME_MS,
        ensures
            final(self)@ == (Session {
                tokens: Some(auth::tokens_view(tokens)),
                expires_at: Some(now + TOKEN_LIFETIME_MS),
                ..old(self)@
            }),
    {
        self.expires_at = Some(now + TOKEN_LIFETIME_MS);
        self.tokens = Some(tokens);
    }

    /// Takes tokens from an earlier run; they are refreshed before they are
    /// used.
    pub fn restore_tokens(&mut self, tokens: AuthTokens)
        ensures
            final(self)@ == (Session {
                tokens: Some(auth::tokens_view(tokens)),
                expires_at: None,
                ..old(self)@
            }),
    {
        self.tokens = Some(tokens);
        self.expires_at = None;
    }

    /// Sets how many seconds from now the tokens last.
    pub fn set_expiry(&mut self, secs: u64, now: u64)
        requires
            now + secs * 1000 <= u64::MAX,
        ensures
            final(self)@ == (Session { expires_at: Some(now + secs * 1000), ..old(self)@ }),
    {
        self.expires_at = Some(now + secs * 1000);
    }

    pub fn is_expired(&self, now: u64) -> (r: bool)
        ensures
            r == expired(self@, now as int),
    {
        match self.expires_at {
            Some(t) => now >= t,
            None => true,
        }
    }

    /// The access token, or the refresh that has to come first.
    pub fn access_token(&self, now: u64) -> (r: Result<AccessStep, ProtonError>)
        ensures
            match r {
                Ok(step) => access_step_of(self@, now as int) == Ok::<StepModel, Seq<char>>(step@),
                Err(e) => access_step_of(self@, now as int) matches Err(m) && srp::is_auth(e, m),
            },
    {
        let tokens: &AuthTokens = match &self.tokens {
            Some(t) => t,
            None => return Err(ProtonError::Auth(copy_text("No tokens"))),
        };
        if !self.is_expired(now) {
            return Ok(AccessStep::Ready(copy_text(tokens.access_token.as_str())));
        }
        if is_empty(tokens.refresh_token.as_str()) {
            return Err(ProtonError::Auth(copy_text("No refresh token available")));
        }
        Ok(
            AccessStep::Refresh {
                refresh_token: copy_text(tokens.refresh_token.as_str()),
                uid: copy_text(tokens.uid.as_str()),
            },
        )
    }

    /// Takes in the answer to a refresh.
    pub fn refreshed(
        &mut self,
        tokens: AuthTokens,
        scope: Option<String>,
        scopes: Vec<String>,
        now: u64,
    )
        requires
            now <= u64::MAX - TOKEN_LIFETIME_MS,
        ensures
            final(self)@ == (Session {
                tokens: Some(auth::tokens_view(tokens)),
                expires_at: Some(now + TOKEN_LIFETIME_MS),
                scopes: Some((text::option_text(scope), text::texts(scopes@))),
            }),
    {
        self.last_refresh_scopes = Some((scope, scopes));
        self.expires_at = Some(now + TOKEN_LIFETIME_MS);
        self.tokens = Some(tokens);
    }

    /// The scopes of the last refresh, as `scope|a,b,c`.
    pub fn last_refresh_scopes(&self) -> (r: Option<String>)
        ensures
            text::option_text(r) == (match self@.scopes {
                Some((scope, scopes)) => Some(
                    (match scope {
                        Some(s) => s,
                        None => "?"@,
                    }) + "|"@ + text::join(scopes, ","@),
                ),
                None => None,
            }),
    {
        match &self.last_refresh_scopes {
            Some((scope, scopes)) => {
                let list: String = join_texts(scopes, ",");
                match scope {
                    Some(s) => Some(concat3(s.as_str(), "|", list.as_str())),
                    None => Some(concat3("?", "|", list.as_str())),
                }
            },
            None => None,
        }
    }

    pub fn uid(&self) -> (r: Option<&str>)
        ensures
            match r {
                Some(u) => self@.tokens matches Some(t) && t.2 == u@,
                None => self@.tokens is None,
            },
    {
        match &self.tokens {
            Some(t) => Some(t.uid.as_str()),
            None => None,
        }
    }

    pub fn refresh_token(&self) -> (r: Option<&str>)
        ensures
            match r {
                Some(u) => self@.tokens matches Some(t) && t.1 == u@,
                None => self@.tokens is None,
            },
    {
        match &self.tokens {
            Some(t) => Some(t.refresh_token.as_str()),
            None => None,
        }
    }

    pub fn get_tokens(&self) -> (r: Option<&AuthTokens>)
        ensures
            match r {
                Some(t) => self@.tokens == Some(auth::tokens_view(*t)),
                None => self@.tokens is None,
            },
    {
        self.tokens.as_ref()
    }

    pub fn take_tokens(&mut self) -> (r: Option<AuthTokens>)
        ensures
            option_tokens(r) == old(self)@.tokens,
            final(self)@ == (Session { tokens: None, ..old(self)@ }),
    {
        self.tokens.take()
    }
}

impl Default for TokenManager {
    fn default() -> (r: TokenManager)
        ensures
            r@ == (Session { tokens: None, expires_at: None, scopes: None }),
    {
        TokenManager::new()
    }
}

/// Tokens from an earlier run are never handed out before a refresh.
pub proof fn law_restored_tokens_are_refreshed(s: Session, now: int)
    requires
        s.expires_at is None,
    ensures
        access_step_of(s, now) matches Ok(step) ==> step is Refresh,
{
}

/// A locked login leaves no tokens behind.
pub proof fn law_locked_login_keeps_session(s: Session, state: LoginState, now: int)
    requires
        state is Requires2FA,
    ensures
        after_login(s, state, now) == s,
{
}

/// Fresh tokens are handed out for an hour and refreshed from then on.
pub proof fn law_tokens_last_an_hour(s: Session, state: LoginState, login: int, now: int)
    requires
        state is Authenticated,
    ensures
        now < login + TOKEN_LIFETIME_MS ==> access_step_of(after_login(s, state, login), now)
            == Ok::<StepModel, Seq<char>>(
            StepModel::Ready(state->tokens.access_token@),
        ),
        now >= login + TOKEN_LIFETIME_MS ==> expired(after_login(s, state, login), now),
{
}

/// What is done for an access token: it is handed out until its time is
/// over, then, and where its time is not known, the refresh token and the
/// session are used for a new one; without tokens, or without a refresh token
/// by then, there is an error.
pub proof fn law_access_steps(
    access: Seq<char>,
    refresh: Seq<char>,
    uid: Seq<char>,
    s: Session,
    now: int,
)
    requires
        s.tokens == Some((access, refresh, uid)),
    ensures
        s.expires_at is Some && now < s.expires_at->Some_0 ==> access_step_of(s, now) == Ok::<
            StepModel,
            Seq<char>,
        >(StepModel::Ready(access)),
        (s.expires_at is None || now >= s.expires_at->Some_0) && refresh.len() > 0
            ==> access_step_of(s, now) == Ok::<StepModel, Seq<char>>(
            StepModel::Refresh { refresh_token: refresh, uid },
        ),
        (s.expires_at is None || now >= s.expires_at->Some_0) && refresh.len() == 0
            ==> access_step_of(s, now) is Err,
        access_step_of(Session { tokens: None, ..s }, now) is Err,
        TOKEN_LIFETIME_MS == 3600000,
{
}

/// An open login leaves its own tokens behind, and the scopes as they were.
pub proof fn law_login_leaves_its_tokens(s: Session, state: LoginState, now: int)
    requires
        state is Authenticated,
    ensures
        ({
            let after = after_login(s, state, now);
            let t = state->tokens;
            &&& after.tokens == Some((t.access_token@, t.refresh_token@, t.uid@))
            &&& after.expires_at == Some(now + 3600000)
            &&& after.scopes == s.scopes
        }),
{
}

} // verus!
