//! The errors of the library.

use vstd::prelude::*;
use vstd::string::StringExecFns;

verus! {

/// What can go wrong in the library and around it. Each variant carries a
/// description of the failure.
#[derive(Debug)]
pub enum AnalyticsError {
    RelayConnection(String),
    EventParsing(String),
    LanguageDetection(String),
    Serialization(String),
    InvalidParameter(String),
    Computation(String),
    NostrSdk(String),
}

impl AnalyticsError {
    /// The words that introduce the description of an error of this kind.
    pub open spec fn heading(&self) -> Seq<char> {
        match self {
            AnalyticsError::RelayConnection(_) => "Relay connection error: "@,
            AnalyticsError::EventParsing(_) => "Event parsing error: "@,
            AnalyticsError::LanguageDetection(_) => "Language detection error: "@,
            AnalyticsError::Serialization(_) => "Serialization error: "@,
            AnalyticsError::InvalidParameter(_) => "Invalid parameter: "@,
            AnalyticsError::Computation(_) => "Computation error: "@,
            AnalyticsError::NostrSdk(_) => "Nostr SDK error: "@,
        }
    }

    /// The description that the error carries.
    pub open spec fn detail(&self) -> Seq<char> {
        match self {
            AnalyticsError::RelayConnection(text) => text@,
            AnalyticsError::EventParsing(text) => text@,
            AnalyticsError::LanguageDetection(text) => text@,
            AnalyticsError::Serialization(text) => text@,
            AnalyticsError::InvalidParameter(text) => text@,
            AnalyticsError::Computation(text) => text@,
            AnalyticsError::NostrSdk(text) => text@,
        }
    }

    /// The error in words: the heading of its kind, then its description.
    pub fn to_string(&self) -> (text: String)
        ensures
            text@ == self.heading() + self.detail(),
    {
        match self {
            AnalyticsError::RelayConnection(detail) => String::from_str(
                "Relay connection error: ",
            ).concat(detail.as_str()),
            AnalyticsError::EventParsing(detail) => String::from_str(
                "Event parsing error: ",
            ).concat(detail.as_str()),
            AnalyticsError::LanguageDetection(detail) => String::from_str(
                "Language detection error: ",
            ).concat(detail.as_str()),
            AnalyticsError::Serialization(detail) => String::from_str(
                "Serialization error: ",
            ).concat(detail.as_str()),
            AnalyticsError::InvalidParameter(detail) => String::from_str(
                "Invalid parameter: ",
            ).concat(detail.as_str()),
            AnalyticsError::Computation(detail) => String::from_str(
                "Computation error: ",
            ).concat(detail.as_str()),
            AnalyticsError::NostrSdk(detail) => String::from_str("Nostr SDK error: ").concat(
                detail.as_str(),
            ),
        }
    }
}

} // verus!
