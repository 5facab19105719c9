//! What can go wrong.
use vstd::prelude::*;

use crate::numbers;
use crate::text;
use crate::text::{concat2, concat3, copy_text};

verus! {

/// A human-verification challenge (API code 9001). `token` is the handle of
/// the challenge, not a solved proof; `web_url` opens it; `methods` names
/// the ways to complete it.
#[derive(Debug, Clone, PartialEq, Eq)]
pub struct CaptchaChallenge {
    pub methods: Vec<String>,
    pub token: String,
    pub web_url: String,
}

impl CaptchaChallenge {
    /// The methods for display, with commas (`"captcha, email"`).
    pub fn methods_display(&self) -> (r: String)
        ensures
            r@ == text::join(text::texts(self.methods@), ", "@),
    {
        text::join_texts(&self.methods, ", ")
    }
}

/// An error of the library. The variants for transport, JSON and files hold
/// the text of the error that came up there.
#[derive(Debug)]
pub enum ProtonError {
    Http(String),
    Api { code: i32, message: String },
    Auth(String),
    Captcha(CaptchaChallenge),
    TokenExpired,
    Crypto(String),
    Serde(String),
    Io(String),
}

/// The text that an error is shown with.
pub open spec fn error_text(e: ProtonError) -> Seq<char> {
    match e {
        ProtonError::Http(m) => "HTTP error: "@ + m@,
        ProtonError::Api { code, message } => "API error "@ + numbers::signed_decimal(code as int)
            + ": "@ + message@,
        ProtonError::Auth(m) => "Authentication failed: "@ + m@,
        ProtonError::Captcha(c) => "Proton human verification required (methods: "@ + text::join(
            text::texts(c.methods@),
            ", "@,
        ) + ")"@,
        ProtonError::TokenExpired => "Token expired"@,
        ProtonError::Crypto(m) => "Crypto error: "@ + m@,
        ProtonError::Serde(m) => "Serialization error: "@ + m@,
        ProtonError::Io(m) => "IO error: "@ + m@,
    }
}

impl ProtonError {
    /// The challenge, when this is a [`ProtonError::Captcha`].
    pub fn captcha_challenge(&self) -> (r: Option<&CaptchaChallenge>)
        ensures
            match *self {
                ProtonError::Captcha(c) => r == Some(&c),
                _ => r is None,
            },
    {
        match self {
            ProtonError::Captcha(c) => Some(c),
            _ => None,
        }
    }

    /// The text to show. For a challenge it names the methods only: neither
    /// the token nor the verification address, which holds the token, is in
    /// it.
    pub fn message(&self) -> (r: String)
        ensures
            r@ == error_text(*self),
    {
        match self {
            ProtonError::Http(m) => concat2("HTTP error: ", m.as_str()),
            ProtonError::Api { code, message } => {
                let c: String = numbers::signed_decimal_text(*code as i64);
                let head: String = concat3("API error ", c.as_str(), ": ");
                concat2(head.as_str(), message.as_str())
            },
            ProtonError::Auth(m) => concat2("Authentication failed: ", m.as_str()),
            ProtonError::Captcha(c) => {
                let m: String = c.methods_display();
                concat3("Proton human verification required (methods: ", m.as_str(), ")")
            },
            ProtonError::TokenExpired => copy_text("Token expired"),
            ProtonError::Crypto(m) => concat2("Crypto error: ", m.as_str()),
            ProtonError::Serde(m) => concat2("Serialization error: ", m.as_str()),
            ProtonError::Io(m) => concat2("IO error: ", m.as_str()),
        }
    }
}

/// The text of a challenge depends on its methods alone: no token and no
/// address can be read off it.
pub proof fn law_challenge_text_hides_token(a: CaptchaChallenge, b: CaptchaChallenge)
    requires
        text::texts(a.methods@) == text::texts(b.methods@),
    ensures
        error_text(ProtonError::Captcha(a)) == error_text(ProtonError::Captcha(b)),
{
}

/// Every error says what failed, and then in its own words how.
pub proof fn law_error_texts(m: String, code: i32)
    ensures
        error_text(ProtonError::Http(m)) == "HTTP error: "@ + m@,
        error_text(ProtonError::Api { code, message: m }) == "API error "@
            + numbers::signed_decimal(code as int) + ": "@ + m@,
        error_text(ProtonError::Auth(m)) == "Authentication failed: "@ + m@,
        error_text(ProtonError::Crypto(m)) == "Crypto error: "@ + m@,
        error_text(ProtonError::Serde(m)) == "Serialization error: "@ + m@,
        error_text(ProtonError::Io(m)) == "IO error: "@ + m@,
        error_text(ProtonError::TokenExpired) == "Token expired"@,
{
}

} // verus!
