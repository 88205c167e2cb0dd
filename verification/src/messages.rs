//! The messages of refused service and scope operations.
use vstd::prelude::*;
use vstd::string::*;
use crate::errors::{ScopeError, ScopeErrorView};
use crate::services;
use crate::services::{
    DependencyView, KeyView, ProviderView, ScopePath, ServiceDependency, ServiceError,
    ServiceErrorView, ServiceKey, ServiceProvider,
};
use crate::text;
use crate::value;

verus! {

broadcast use value::group_views;

// ---------- debug forms ----------

/// A list in its debug form, of items that are shown already.
pub open spec fn shown_list(items: Seq<Seq<char>>) -> Seq<char> {
    "["@ + text::join_text(items, ", "@) + "]"@
}

/// A scope path in its debug form.
pub open spec fn shown_scope(path: Seq<Seq<char>>) -> Seq<char> {
    "ScopePath("@ + shown_list(path.map_values(|t: Seq<char>| text::debug_text(t))) + ")"@
}

/// A key in its debug form.
pub open spec fn shown_key(key: KeyView) -> Seq<char> {
    "ServiceKey { scope: "@ + shown_scope(key.scope) + ", name: "@ + text::debug_text(key.name)
        + " }"@
}

/// A dependency in its debug form.
pub open spec fn shown_dependency(d: DependencyView) -> Seq<char> {
    "ServiceDependency { key: "@ + shown_key(d.key) + ", required_version: "@ + text::decimal(
        d.required_version as nat,
    ) + " }"@
}

/// Dependencies in their debug form.
pub open spec fn shown_dependencies(deps: Seq<DependencyView>) -> Seq<char> {
    shown_list(deps.map_values(|d: DependencyView| shown_dependency(d)))
}

/// A provider in its debug form.
pub open spec fn shown_provider(p: ProviderView) -> Seq<char> {
    "ServiceProvider { module_id: Id128 { text: "@ + text::debug_text(p.module_id)
        + " }, generation: "@ + text::decimal(p.generation as nat)
        + ", contract: ServiceContract { name: "@ + text::debug_text(p.contract.name)
        + ", version: "@ + text::decimal(p.contract.version as nat) + " } }"@
}

fn show_list(items: &Vec<String>) -> (r: String)
    ensures
        r@ == shown_list(value::views(items@)),
{
    let joined = text::join(items, ", ");
    text::cat3("[", joined.as_str(), "]")
}

fn show_scope(path: &ScopePath) -> (r: String)
    ensures
        r@ == shown_scope(path@),
{
    let ghost want = path@.map_values(|t: Seq<char>| text::debug_text(t));
    let mut items: Vec<String> = Vec::new();
    let mut i: usize = 0;
    assert(value::views(items@) =~= want.take(0));
    while i < path.0.len()
        invariant
            i <= path.0.len(),
            want == path@.map_values(|t: Seq<char>| text::debug_text(t)),
            value::views(items@) == want.take(i as int),
        decreases path.0.len() - i,
    {
        items.push(text::debug(path.0[i].as_str()));
        assert(want.take(i + 1) =~= want.take(i as int).push(want[i as int]));
        i = i + 1;
    }
    assert(want.take(i as int) =~= want);
    let list = show_list(&items);
    text::cat3("ScopePath(", list.as_str(), ")")
}

fn show_key(key: &ServiceKey) -> (r: String)
    ensures
        r@ == shown_key(key@),
{
    let scope = show_scope(&key.scope);
    let name = text::debug(key.name.as_str());
    text::cat5("ServiceKey { scope: ", scope.as_str(), ", name: ", name.as_str(), " }")
}

fn show_dependency(d: &ServiceDependency) -> (r: String)
    ensures
        r@ == shown_dependency(d@),
{
    let key = show_key(&d.key);
    let version = text::decimal_text(d.required_version as u64);
    text::cat5(
        "ServiceDependency { key: ",
        key.as_str(),
        ", required_version: ",
        version.as_str(),
        " }",
    )
}

fn show_dependencies(deps: &Vec<ServiceDependency>) -> (r: String)
    ensures
        r@ == shown_dependencies(value::views(deps@)),
{
    let ghost want = value::views(deps@).map_values(|d: DependencyView| shown_dependency(d));
    let mut items: Vec<String> = Vec::new();
    let mut i: usize = 0;
    assert(value::views(items@) =~= want.take(0));
    while i < deps.len()
        invariant
            i <= deps.len(),
            want == value::views(deps@).map_values(|d: DependencyView| shown_dependency(d)),
            value::views(items@) == want.take(i as int),
        decreases deps.len() - i,
    {
        items.push(show_dependency(&deps[i]));
        assert(want.take(i + 1) =~= want.take(i as int).push(want[i as int]));
        i = i + 1;
    }
    assert(want.take(i as int) =~= want);
    show_list(&items)
}

fn show_provider(p: &ServiceProvider) -> (r: String)
    ensures
        r@ == shown_provider(p@),
{
    let module = text::debug(p.module_id.text.as_str());
    let generation = text::decimal_text(p.generation);
    let name = text::debug(p.contract.name.as_str());
    let version = text::decimal_text(p.contract.version as u64);
    let mut r = text::cat5(
        "ServiceProvider { module_id: Id128 { text: ",
        module.as_str(),
        " }, generation: ",
        generation.as_str(),
        ", contract: ServiceContract { name: ",
    );
    r.append(name.as_str());
    r.append(", version: ");
    r.append(version.as_str());
    r.append(" } }");
    r
}

// ---------- messages ----------

/// The message of a refused service operation.
pub open spec fn service_message(e: ServiceErrorView) -> Seq<char> {
    match e {
        ServiceErrorView::Conflict { key, holder, challenger } => "service `"@
            + services::key_text(key) + "` is held by "@ + shown_provider(holder)
            + "; challenger "@ + shown_provider(challenger) + " cannot take it over"@,
        ServiceErrorView::Unresolved { key, required_version } => "service `"@
            + services::key_text(key) + "` at required version "@ + text::decimal(
            required_version as nat,
        ) + " is not published"@,
        ServiceErrorView::ScopeViolation { key, caller_scope, reason } =>
            "scope violation resolving `"@ + services::key_text(key) + "` from caller scope `"@
            + services::scope_text(caller_scope) + "`: "@ + reason,
        ServiceErrorView::DependencyCycle { path } => "dependency cycle: "@ + text::join_text(
            path,
            " -> "@,
        ),
        ServiceErrorView::DependentsExist { key, dependents } => "service `"@
            + services::key_text(key) + "` still has dependents: "@ + shown_dependencies(
            dependents,
        ),
        ServiceErrorView::NotOwner { key, module_id } => "module "@ + module_id
            + " does not own service `"@ + services::key_text(key) + "`"@,
        ServiceErrorView::VersionMismatch { key, required_version, actual_version } =>
            "service `"@ + services::key_text(key) + "` is at version "@ + text::decimal(
            actual_version as nat,
        ) + ", required "@ + text::decimal(required_version as nat),
        ServiceErrorView::InvalidInput(t) => "invalid input: "@ + t,
    }
}

impl ServiceError {
    /// The message shown to a user.
    pub fn text(&self) -> (r: String)
        ensures
            r@ == service_message(self@),
    {
        match self {
            ServiceError::Conflict { key, holder, challenger } => {
                let key = key.text();
                let holder = show_provider(holder);
                let challenger = show_provider(challenger);
                let mut r = text::cat5(
                    "service `",
                    key.as_str(),
                    "` is held by ",
                    holder.as_str(),
                    "; challenger ",
                );
                r.append(challenger.as_str());
                r.append(" cannot take it over");
                r
            },
            ServiceError::Unresolved { key, required_version } => {
                let key = key.text();
                let version = text::decimal_text(*required_version as u64);
                text::cat5(
                    "service `",
                    key.as_str(),
                    "` at required version ",
                    version.as_str(),
                    " is not published",
                )
            },
            ServiceError::ScopeViolation { key, caller_scope, reason } => {
                let key = key.text();
                let scope = caller_scope.text();
                let mut r = text::cat5(
                    "scope violation resolving `",
                    key.as_str(),
                    "` from caller scope `",
                    scope.as_str(),
                    "`: ",
                );
                r.append(reason.as_str());
                r
            },
            ServiceError::DependencyCycle { path } => {
                let joined = text::join(path, " -> ");
                text::cat2("dependency cycle: ", joined.as_str())
            },
            ServiceError::DependentsExist { key, dependents } => {
                let key = key.text();
                let deps = show_dependencies(dependents);
                let mut r = text::cat3("service `", key.as_str(), "` still has dependents: ");
                r.append(deps.as_str());
                r
            },
            ServiceError::NotOwner { key, module_id } => {
                let key = key.text();
                text::cat5(
                    "module ",
                    module_id.text.as_str(),
                    " does not own service `",
                    key.as_str(),
                    "`",
                )
            },
            ServiceError::VersionMismatch { key, required_version, actual_version } => {
                let key = key.text();
                let actual = text::decimal_text(*actual_version as u64);
                let required = text::decimal_text(*required_version as u64);
                let mut r = text::cat5(
                    "service `",
                    key.as_str(),
                    "` is at version ",
                    actual.as_str(),
                    ", required ",
                );
                r.append(required.as_str());
                r
            },
            ServiceError::InvalidInput(t) => text::cat2("invalid input: ", t.as_str()),
        }
    }
}

/// The message of a refused scope transaction.
pub open spec fn scope_message(e: ScopeErrorView) -> Seq<char> {
    match e {
        ScopeErrorView::Conflict { kind, scope, name, holder, challenger } => "`"@ + kind
            + "` contribution `"@ + name + "` in scope `"@ + services::scope_text(scope)
            + "` is held by "@ + holder + "; challenger "@ + challenger,
        ScopeErrorView::DuplicateScope { parent, name } => "duplicate scope name `"@ + name
            + "` under parent `"@ + services::scope_text(parent) + "`"@,
        ScopeErrorView::StaleEpoch { staged, current } =>
            "stale staged set: built against epoch "@ + text::decimal(staged as nat)
            + ", current epoch is "@ + text::decimal(current as nat),
        ScopeErrorView::DependentsRemain { scope, dependents } => "scope `"@
            + services::scope_text(scope) + "` still has dependent services: "@
            + shown_dependencies(dependents),
        ScopeErrorView::InvalidContribution { scope, reason } =>
            "invalid contribution in scope `"@ + services::scope_text(scope) + "`: "@ + reason,
        ScopeErrorView::InvalidInput(t) => "invalid input: "@ + t,
        ScopeErrorView::Service(e) => service_message(e),
    }
}

impl ScopeError {
    /// The message shown to a user.
    pub fn text(&self) -> (r: String)
        ensures
            r@ == scope_message(self@),
    {
        match self {
            ScopeError::Conflict { kind, scope, name, holder, challenger } => {
                let scope = scope.text();
                let mut r = text::cat5(
                    "`",
                    *kind,
                    "` contribution `",
                    name.as_str(),
                    "` in scope `",
                );
                r.append(scope.as_str());
                r.append("` is held by ");
                r.append(holder.as_str());
                r.append("; challenger ");
                r.append(challenger.as_str());
                r
            },
            ScopeError::DuplicateScope { parent, name } => {
                let parent = parent.text();
                text::cat5(
                    "duplicate scope name `",
                    name.as_str(),
                    "` under parent `",
                    parent.as_str(),
                    "`",
                )
            },
            ScopeError::StaleEpoch { staged, current } => {
                let staged = text::decimal_text(*staged);
                let current = text::decimal_text(*current);
                let mut r = text::cat3(
                    "stale staged set: built against epoch ",
                    staged.as_str(),
                    ", current epoch is ",
                );
                r.append(current.as_str());
                r
            },
            ScopeError::DependentsRemain { scope, dependents } => {
                let scope = scope.text();
                let deps = show_dependencies(dependents);
                let mut r = text::cat3(
                    "scope `",
                    scope.as_str(),
                    "` still has dependent services: ",
                );
                r.append(deps.as_str());
                r
            },
            ScopeError::InvalidContribution { scope, reason } => {
                let scope = scope.text();
                let mut r = text::cat3("invalid contribution in scope `", scope.as_str(), "`: ");
                r.append(reason.as_str());
                r
            },
            ScopeError::InvalidInput(t) => text::cat2("invalid input: ", t.as_str()),
            ScopeError::Service(e) => e.text(),
        }
    }
}

/// A refused service operation is told with everything it was refused for.
pub proof fn law_service_errors_tell_their_reason(
    key: KeyView,
    version: u32,
    other: u32,
    module_id: Seq<char>,
    path: Seq<Seq<char>>,
    caller_scope: Seq<Seq<char>>,
    t: Seq<char>,
)
    ensures
        service_message(ServiceErrorView::Unresolved { key, required_version: version })
            == "service `"@ + services::key_text(key) + "` at required version "@ + text::decimal(
            version as nat,
        ) + " is not published"@,
        service_message(
            ServiceErrorView::VersionMismatch {
                key,
                required_version: version,
                actual_version: other,
            },
        ) == "service `"@ + services::key_text(key) + "` is at version "@ + text::decimal(
            other as nat,
        ) + ", required "@ + text::decimal(version as nat),
        service_message(ServiceErrorView::NotOwner { key, module_id }) == "module "@ + module_id
            + " does not own service `"@ + services::key_text(key) + "`"@,
        service_message(ServiceErrorView::DependencyCycle { path }) == "dependency cycle: "@
            + text::join_text(path, " -> "@),
        service_message(ServiceErrorView::ScopeViolation { key, caller_scope, reason: t })
            == "scope violation resolving `"@ + services::key_text(key) + "` from caller scope `"@
            + services::scope_text(caller_scope) + "`: "@ + t,
        service_message(ServiceErrorView::InvalidInput(t)) == "invalid input: "@ + t,
{
}

/// A conflict is told with both sides, and a removal with everything that still
/// leans on what was to go.
pub proof fn law_conflicts_are_told_with_both_sides(
    key: KeyView,
    holder: ProviderView,
    challenger: ProviderView,
    dependents: Seq<DependencyView>,
    d: DependencyView,
)
    ensures
        service_message(ServiceErrorView::Conflict { key, holder, challenger }) == "service `"@
            + services::key_text(key) + "` is held by "@ + shown_provider(holder)
            + "; challenger "@ + shown_provider(challenger) + " cannot take it over"@,
        service_message(ServiceErrorView::DependentsExist { key, dependents }) == "service `"@
            + services::key_text(key) + "` still has dependents: "@ + shown_dependencies(
            dependents,
        ),
        shown_dependencies(seq![d]) == "["@ + shown_dependency(d) + "]"@,
        dependents.len() > 0 ==> shown_dependencies(dependents.push(d)) == "["@ + text::join_text(
            dependents.map_values(|x: DependencyView| shown_dependency(x)),
            ", "@,
        ) + ", "@ + shown_dependency(d) + "]"@,
{
    let f = |x: DependencyView| shown_dependency(x);
    assert(seq![d].map_values(f) =~= seq![shown_dependency(d)]);
    assert(dependents.push(d).map_values(f) =~= dependents.map_values(f).push(shown_dependency(d)));
    text::law_texts_are_joined_in_order(dependents.map_values(f), shown_dependency(d), ", "@);
    if dependents.len() > 0 {
        assert(shown_dependencies(dependents.push(d)) =~= "["@ + text::join_text(
            dependents.map_values(f),
            ", "@,
        ) + ", "@ + shown_dependency(d) + "]"@);
    }
}

/// A refused scope transaction is told with everything it was refused for.
pub proof fn law_scope_errors_tell_their_reason(
    scope: Seq<Seq<char>>,
    name: Seq<char>,
    kind: Seq<char>,
    holder: Seq<char>,
    challenger: Seq<char>,
    staged: u64,
    current: u64,
    e: ServiceErrorView,
)
    ensures
        scope_message(ScopeErrorView::Conflict { kind, scope, name, holder, challenger }) == "`"@
            + kind + "` contribution `"@ + name + "` in scope `"@ + services::scope_text(scope)
            + "` is held by "@ + holder + "; challenger "@ + challenger,
        scope_message(ScopeErrorView::DuplicateScope { parent: scope, name })
            == "duplicate scope name `"@ + name + "` under parent `"@ + services::scope_text(scope)
            + "`"@,
        scope_message(ScopeErrorView::StaleEpoch { staged, current })
            == "stale staged set: built against epoch "@ + text::decimal(staged as nat)
            + ", current epoch is "@ + text::decimal(current as nat),
        scope_message(ScopeErrorView::InvalidContribution { scope, reason: name })
            == "invalid contribution in scope `"@ + services::scope_text(scope) + "`: "@ + name,
        scope_message(ScopeErrorView::InvalidInput(name)) == "invalid input: "@ + name,
        scope_message(ScopeErrorView::Service(e)) == service_message(e),
{
}

} // verus!
