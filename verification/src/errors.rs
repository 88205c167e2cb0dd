//! What scope transactions refuse.
use vstd::prelude::*;
use crate::services::{
    DependencyView, ScopePath, ServiceDependency, ServiceError, ServiceErrorView,
};
use crate::value;

verus! {

/// A refused scope transaction.
#[derive(Debug, Clone, PartialEq, Eq)]
pub enum ScopeError {
    /// A contribution conflicts with a registration or with an earlier entry
    /// of the same staged set.
    Conflict {
        kind: &'static str,
        scope: ScopePath,
        name: String,
        holder: String,
        challenger: String,
    },
    /// A child scope name is already taken within its parent.
    DuplicateScope { parent: ScopePath, name: String },
    /// A staged set was built against an older epoch.
    StaleEpoch { staged: u64, current: u64 },
    /// Removing a scope would orphan dependents of its services.
    DependentsRemain { scope: ScopePath, dependents: Vec<ServiceDependency> },
    /// A contribution breaks a structural rule.
    InvalidContribution { scope: ScopePath, reason: String },
    InvalidInput(String),
    /// The service graph refused.
    Service(ServiceError),
}

pub enum ScopeErrorView {
    Conflict {
        kind: Seq<char>,
        scope: Seq<Seq<char>>,
        name: Seq<char>,
        holder: Seq<char>,
        challenger: Seq<char>,
    },
    DuplicateScope { parent: Seq<Seq<char>>, name: Seq<char> },
    StaleEpoch { staged: u64, current: u64 },
    DependentsRemain { scope: Seq<Seq<char>>, dependents: Seq<DependencyView> },
    InvalidContribution { scope: Seq<Seq<char>>, reason: Seq<char> },
    InvalidInput(Seq<char>),
    Service(ServiceErrorView),
}

impl View for ScopeError {
    type V = ScopeErrorView;

    open spec fn view(&self) -> ScopeErrorView {
        match *self {
            ScopeError::Conflict { kind, scope, name, holder, challenger } =>
                ScopeErrorView::Conflict {
                kind: kind@,
                scope: scope@,
                name: name@,
                holder: holder@,
                challenger: challenger@,
            },
            ScopeError::DuplicateScope { parent, name } => ScopeErrorView::DuplicateScope {
                parent: parent@,
                name: name@,
            },
            ScopeError::StaleEpoch { staged, current } => ScopeErrorView::StaleEpoch {
                staged,
                current,
            },
            ScopeError::DependentsRemain { scope, dependents } =>
                ScopeErrorView::DependentsRemain {
                scope: scope@,
                dependents: value::views(dependents@),
            },
            ScopeError::InvalidContribution { scope, reason } =>
                ScopeErrorView::InvalidContribution { scope: scope@, reason: reason@ },
            ScopeError::InvalidInput(reason) => ScopeErrorView::InvalidInput(reason@),
            ScopeError::Service(e) => ScopeErrorView::Service(e@),
        }
    }
}

} // verus!
