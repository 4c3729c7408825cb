//! What can be wrong with a subscription.

use crate::number::NumberError;
use vstd::prelude::*;

verus! {

/// The error of `base64`, which says where the text is not Base64.
#[verifier::external_type_specification]
#[verifier::external_body]
pub struct ExBase64Error(base64::DecodeError);

/// The error of `String::from_utf8` and of `urlencoding`.
#[verifier::external_type_specification]
#[verifier::external_body]
pub struct ExUtf8Error(std::string::FromUtf8Error);

/// The error of `serde_json`.
#[verifier::external_type_specification]
#[verifier::external_body]
pub struct ExJsonError(serde_json::Error);

/// The error of `regex`.
#[verifier::external_type_specification]
#[verifier::external_body]
pub struct ExRegexError(regex::Error);

/// A rule of this library that a subscription breaks.
#[derive(Debug, Clone, Copy, PartialEq, Eq, Structural)]
pub enum Problem {
    InvalidSsUri,
    SsMissingServer,
    SsMissingCipher,
    MissingHostPort,
    Port(NumberError),
    InvalidVmessUri,
    VmessMissingAdd,
    VmessMissingPort,
    VmessMissingId,
    UnknownFormat,
    MissingProxies,
    MissingName,
    NoProxies,
}

impl Problem {
    /// The words in which the problem is reported.
    pub open spec fn words(self) -> Seq<char> {
        match self {
            Problem::InvalidSsUri => "invalid ss uri"@,
            Problem::SsMissingServer => "invalid ss uri: missing server"@,
            Problem::SsMissingCipher => "invalid ss uri: missing cipher"@,
            Problem::MissingHostPort => "missing host port"@,
            Problem::Port(error) => error.words(),
            Problem::InvalidVmessUri => "invalid vmess uri"@,
            Problem::VmessMissingAdd => "vmess missing add"@,
            Problem::VmessMissingPort => "vmess missing port"@,
            Problem::VmessMissingId => "vmess missing id"@,
            Problem::UnknownFormat =>
                "subscription is not a Clash/Mihomo YAML document or supported URI list."@,
            Problem::MissingProxies => "subscription missing proxies array"@,
            Problem::MissingName => "proxy item missing name"@,
            Problem::NoProxies => "subscriptions did not provide any proxy after filtering"@,
        }
    }

    pub fn message(&self) -> (message: String)
        ensures
            message@ == self.words(),
    {
        match self {
            Problem::InvalidSsUri => "invalid ss uri".to_string(),
            Problem::SsMissingServer => "invalid ss uri: missing server".to_string(),
            Problem::SsMissingCipher => "invalid ss uri: missing cipher".to_string(),
            Problem::MissingHostPort => "missing host port".to_string(),
            Problem::Port(error) => error.message(),
            Problem::InvalidVmessUri => "invalid vmess uri".to_string(),
            Problem::VmessMissingAdd => "vmess missing add".to_string(),
            Problem::VmessMissingPort => "vmess missing port".to_string(),
            Problem::VmessMissingId => "vmess missing id".to_string(),
            Problem::UnknownFormat =>
                "subscription is not a Clash/Mihomo YAML document or supported URI list.".to_string(),
            Problem::MissingProxies => "subscription missing proxies array".to_string(),
            Problem::MissingName => "proxy item missing name".to_string(),
            Problem::NoProxies =>
                "subscriptions did not provide any proxy after filtering".to_string(),
        }
    }
}

/// Why a subscription cannot be used: a rule of this library, or what another library says
/// of the text it was given.
#[derive(Debug)]
pub enum SubscriptionError {
    Problem(Problem),
    Base64(base64::DecodeError),
    Utf8(std::string::FromUtf8Error),
    Json(serde_json::Error),
    Pattern(regex::Error),
}

/// An error as contracts speak of it: which rule is broken, or which library objects. What
/// the other library says is handed on, and contracts do not speak of it.
pub enum Fault {
    Problem(Problem),
    Base64,
    Utf8,
    Json,
    Pattern,
}

impl View for SubscriptionError {
    type V = Fault;

    open spec fn view(&self) -> Fault {
        match self {
            SubscriptionError::Problem(problem) => Fault::Problem(*problem),
            SubscriptionError::Base64(_) => Fault::Base64,
            SubscriptionError::Utf8(_) => Fault::Utf8,
            SubscriptionError::Json(_) => Fault::Json,
            SubscriptionError::Pattern(_) => Fault::Pattern,
        }
    }
}

} // verus!
