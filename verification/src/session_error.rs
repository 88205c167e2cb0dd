//! What a session operation fails with.
use vstd::prelude::*;
use vstd::string::*;
use crate::errors::{ScopeError, ScopeErrorView};
use crate::ids::Digest;
use crate::messages;
use crate::services::{ServiceError, ServiceErrorView};
use crate::text;

verus! {

/// Session failures that are decided here.
#[derive(Debug, Clone, PartialEq, Eq)]
pub enum SessionError {
    /// The user cancelled the run at a stream boundary.
    Cancelled,
    /// The provider call failed.
    Provider(String),
    MissingObject { digest: Digest },
    MissingConfigLayer { digest: Digest },
    InvalidInput(String),
    Snapshot(String),
    ModulesDisabled,
    StaleGeneration { generation: u64 },
    /// A scope transaction was refused.
    Scope(ScopeError),
    /// The service graph refused.
    Service(ServiceError),
    ConfigActivation(String),
    Effect(String),
    CompactionViolation(String),
    CorruptRecord(String),
}

pub enum SessionErrorView {
    Cancelled,
    Provider(Seq<char>),
    MissingObject { digest: Seq<char> },
    MissingConfigLayer { digest: Seq<char> },
    InvalidInput(Seq<char>),
    Snapshot(Seq<char>),
    ModulesDisabled,
    StaleGeneration { generation: u64 },
    Scope(ScopeErrorView),
    Service(ServiceErrorView),
    ConfigActivation(Seq<char>),
    Effect(Seq<char>),
    CompactionViolation(Seq<char>),
    CorruptRecord(Seq<char>),
}

impl View for SessionError {
    type V = SessionErrorView;

    open spec fn view(&self) -> SessionErrorView {
        match *self {
            SessionError::Cancelled => SessionErrorView::Cancelled,
            SessionError::Provider(x) => SessionErrorView::Provider(x@),
            SessionError::MissingObject { digest } => SessionErrorView::MissingObject { digest: digest@ },
            SessionError::MissingConfigLayer { digest } => SessionErrorView::MissingConfigLayer { digest: digest@ },
            SessionError::InvalidInput(x) => SessionErrorView::InvalidInput(x@),
            SessionError::Snapshot(x) => SessionErrorView::Snapshot(x@),
            SessionError::ModulesDisabled => SessionErrorView::ModulesDisabled,
            SessionError::StaleGeneration { generation } => SessionErrorView::StaleGeneration { generation },
            SessionError::Scope(e) => SessionErrorView::Scope(e@),
            SessionError::Service(e) => SessionErrorView::Service(e@),
            SessionError::ConfigActivation(x) => SessionErrorView::ConfigActivation(x@),
            SessionError::Effect(x) => SessionErrorView::Effect(x@),
            SessionError::CompactionViolation(x) => SessionErrorView::CompactionViolation(x@),
            SessionError::CorruptRecord(x) => SessionErrorView::CorruptRecord(x@),
        }
    }
}

/// The message of an error.
pub open spec fn message(e: SessionErrorView) -> Seq<char> {
    match e {
        SessionErrorView::Cancelled => "run cancelled by user"@,
        SessionErrorView::Provider(t) => "provider error: "@ + t,
        SessionErrorView::MissingObject { digest } => "event references missing object: "@ + digest,
        SessionErrorView::MissingConfigLayer { digest } => "config layer package "@ + digest
            + " is missing from the store; the fork cannot restore it"@,
        SessionErrorView::InvalidInput(t) => "invalid input: "@ + t,
        SessionErrorView::Snapshot(t) => "snapshot: "@ + t,
        SessionErrorView::ModulesDisabled =>
            "modules are disabled (guest wasm not built or safe mode)"@,
        SessionErrorView::StaleGeneration { generation } => "generation "@ + text::decimal(
            generation as nat,
        ) + " is stale"@,
        SessionErrorView::Scope(e) => messages::scope_message(e),
        SessionErrorView::Service(e) => messages::service_message(e),
        SessionErrorView::ConfigActivation(t) => "config activation failed: "@ + t,
        SessionErrorView::Effect(t) => "effect dispatch failed: "@ + t,
        SessionErrorView::CompactionViolation(t) =>
            "compaction violation: event references compacted fragment "@ + t,
        SessionErrorView::CorruptRecord(t) => "corrupt canonical record: "@ + t,
    }
}

/// The error of a refused input.
pub open spec fn invalid(t: Seq<char>) -> SessionErrorView {
    SessionErrorView::InvalidInput(t)
}

impl SessionError {
    /// The message shown to a user.
    pub fn text(&self) -> (r: String)
        ensures
            r@ == message(self@),
    {
        match self {
            SessionError::Cancelled => "run cancelled by user".to_owned(),
            SessionError::Provider(t) => text::cat2("provider error: ", t.as_str()),
            SessionError::MissingObject { digest } => text::cat2(
                "event references missing object: ",
                digest.text.as_str(),
            ),
            SessionError::MissingConfigLayer { digest } => text::cat3(
                "config layer package ",
                digest.text.as_str(),
                " is missing from the store; the fork cannot restore it",
            ),
            SessionError::InvalidInput(t) => text::cat2("invalid input: ", t.as_str()),
            SessionError::Snapshot(t) => text::cat2("snapshot: ", t.as_str()),
            SessionError::ModulesDisabled =>
                "modules are disabled (guest wasm not built or safe mode)".to_owned(),
            SessionError::StaleGeneration { generation } => text::cat3(
                "generation ",
                text::decimal_text(*generation).as_str(),
                " is stale",
            ),
            SessionError::Scope(e) => e.text(),
            SessionError::Service(e) => e.text(),
            SessionError::ConfigActivation(t) => text::cat2(
                "config activation failed: ",
                t.as_str(),
            ),
            SessionError::Effect(t) => text::cat2("effect dispatch failed: ", t.as_str()),
            SessionError::CompactionViolation(t) => text::cat2(
                "compaction violation: event references compacted fragment ",
                t.as_str(),
            ),
            SessionError::CorruptRecord(t) => text::cat2(
                "corrupt canonical record: ",
                t.as_str(),
            ),
        }
    }
}

/// An error is told with everything it carries.
pub proof fn law_errors_tell_what_they_carry(
    t: Seq<char>,
    generation: u64,
    e: crate::errors::ScopeErrorView,
    f: crate::services::ServiceErrorView,
)
    ensures
        message(SessionErrorView::Cancelled) == "run cancelled by user"@,
        message(SessionErrorView::Provider(t)) == "provider error: "@ + t,
        message(SessionErrorView::MissingObject { digest: t })
            == "event references missing object: "@ + t,
        message(SessionErrorView::MissingConfigLayer { digest: t }) == "config layer package "@ + t
            + " is missing from the store; the fork cannot restore it"@,
        message(SessionErrorView::InvalidInput(t)) == "invalid input: "@ + t,
        message(SessionErrorView::Snapshot(t)) == "snapshot: "@ + t,
        message(SessionErrorView::ModulesDisabled)
            == "modules are disabled (guest wasm not built or safe mode)"@,
        message(SessionErrorView::StaleGeneration { generation }) == "generation "@ + text::decimal(
            generation as nat,
        ) + " is stale"@,
        message(SessionErrorView::Scope(e)) == messages::scope_message(e),
        message(SessionErrorView::Service(f)) == messages::service_message(f),
        message(SessionErrorView::ConfigActivation(t)) == "config activation failed: "@ + t,
        message(SessionErrorView::Effect(t)) == "effect dispatch failed: "@ + t,
        message(SessionErrorView::CompactionViolation(t))
            == "compaction violation: event references compacted fragment "@ + t,
        message(SessionErrorView::CorruptRecord(t)) == "corrupt canonical record: "@ + t,
        invalid(t) == SessionErrorView::InvalidInput(t),
{
}

} // verus!
