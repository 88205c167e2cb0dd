//! Typed contributions: modules contribute entries, never resolution logic.
use vstd::prelude::*;
use vstd::string::*;
use crate::ids::Id128;
use crate::json;
use crate::json_laws;
use crate::json::{Field, FieldView, Json, JsonView};
use crate::services::{
    ContractView, DependencyView, KeyView, ProviderView, ScopePath, ServiceDependency, ServiceKey,
    ServiceProvider,
};
use crate::text;
use crate::value;
use crate::value::Value;

verus! {

broadcast use value::group_views;

/// A typed contribution bound to a scope.
#[derive(Debug, Clone, PartialEq, Eq)]
pub struct Contribution {
    pub scope: ScopePath,
    pub kind: ContributionKind,
}

/// The contribution kinds, one per structural registry.
#[derive(Debug, Clone, PartialEq, Eq)]
pub enum ContributionKind {
    Command(CommandContribution),
    Tool(ToolContribution),
    Service(ServiceContribution),
    Keymap(Keybinding),
    Theme(ThemeContribution),
    ProjectionStage(ProjectionStageContribution),
    UiMount(UiMountContribution),
    Guard(GuardContribution),
    Settings(SettingsContribution),
    Hook(HookContribution),
}

/// A command: unique per scope and name, or explicitly replaced.
#[derive(Debug, Clone, PartialEq, Eq)]
pub struct CommandContribution {
    pub name: String,
    /// Entry name of the command's handler.
    pub handler: String,
}

/// A tool: unique per scope and name, or explicitly replaced. The manifest is
/// an object with a boolean `replay_relevant`.
#[derive(Debug, Clone, PartialEq, Eq)]
pub struct ToolContribution {
    pub name: String,
    pub manifest: Json,
    pub handler: String,
}

/// A service publication: one provider per scoped key.
#[derive(Debug, Clone, PartialEq, Eq)]
pub struct ServiceContribution {
    pub key: ServiceKey,
    pub provider: ServiceProvider,
    pub deps: Vec<ServiceDependency>,
}

/// The UI context a key lookup runs under.
#[derive(Debug, Clone, Copy, PartialEq, Eq, Structural)]
pub struct KeyContext {
    pub modal: bool,
    pub overlay: bool,
}

impl Default for KeyContext {
    fn default() -> (r: Self)
        ensures
            !r.modal,
            !r.overlay,
    {
        KeyContext { modal: false, overlay: false }
    }
}

/// The context a keybinding is live under.
#[derive(Debug, Clone, Copy, PartialEq, Eq, Structural)]
pub enum ContextPredicate {
    Always,
    Modal,
    Overlay,
}

impl Default for ContextPredicate {
    fn default() -> (r: Self)
        ensures
            r == ContextPredicate::Always,
    {
        ContextPredicate::Always
    }
}

/// `predicate` holds under `ctx`.
pub open spec fn live_under(predicate: ContextPredicate, ctx: KeyContext) -> bool {
    match predicate {
        ContextPredicate::Always => true,
        ContextPredicate::Modal => ctx.modal,
        ContextPredicate::Overlay => ctx.overlay,
    }
}

/// `Always` lowest, `Overlay` above it, `Modal` highest.
pub open spec fn context_rank(predicate: ContextPredicate) -> u8 {
    match predicate {
        ContextPredicate::Always => 0,
        ContextPredicate::Overlay => 1,
        ContextPredicate::Modal => 2,
    }
}

impl ContextPredicate {
    /// Whether this predicate matches `ctx`.
    pub fn matches(self, ctx: KeyContext) -> (r: bool)
        ensures
            r == live_under(self, ctx),
    {
        match self {
            ContextPredicate::Always => true,
            ContextPredicate::Modal => ctx.modal,
            ContextPredicate::Overlay => ctx.overlay,
        }
    }

    /// The dispatch tier within the context dimension.
    pub fn rank(self) -> (r: u8)
        ensures
            r == context_rank(self),
    {
        match self {
            ContextPredicate::Always => 0,
            ContextPredicate::Overlay => 1,
            ContextPredicate::Modal => 2,
        }
    }
}

/// The dispatch origin of a binding, derived from the publishing module.
#[derive(Debug, Clone, Copy, PartialEq, Eq, Structural)]
pub enum KeymapOrigin {
    Builtin,
    Plugin,
    UserConfig,
}

impl Default for KeymapOrigin {
    fn default() -> (r: Self)
        ensures
            r == KeymapOrigin::Builtin,
    {
        KeymapOrigin::Builtin
    }
}

/// `Builtin` lowest, then `Plugin`, then `UserConfig`.
pub open spec fn origin_rank(origin: KeymapOrigin) -> u8 {
    match origin {
        KeymapOrigin::Builtin => 0,
        KeymapOrigin::Plugin => 1,
        KeymapOrigin::UserConfig => 2,
    }
}

impl KeymapOrigin {
    /// The dispatch tier within the origin dimension.
    pub fn rank(self) -> (r: u8)
        ensures
            r == origin_rank(self),
    {
        match self {
            KeymapOrigin::Builtin => 0,
            KeymapOrigin::Plugin => 1,
            KeymapOrigin::UserConfig => 2,
        }
    }
}

/// A keybinding. Duplicates are layers; lookup takes the last.
#[derive(Debug, Clone, PartialEq, Eq)]
pub struct Keybinding {
    pub key: String,
    pub context: ContextPredicate,
    pub action: String,
    pub origin: KeymapOrigin,
    /// The publishing module; unknown for an unattributed binding.
    pub owner: Option<Id128>,
}

/// A theme overlay, an object; later overlays merge over earlier ones.
#[derive(Debug, Clone, PartialEq, Eq)]
pub struct ThemeContribution {
    pub name: String,
    pub overlay: Json,
}

/// A projection-stage slot with an explicit ordering.
#[derive(Debug, Clone, PartialEq, Eq)]
pub struct ProjectionStageContribution {
    pub slot: String,
    pub ordering: u32,
    pub handler: String,
}

/// A named UI mount point; `slot` names the region it renders into, `main`
/// when none is given.
#[derive(Debug, Clone, PartialEq, Eq)]
pub struct UiMountContribution {
    pub name: String,
    pub component: String,
    pub slot: Option<String>,
}

/// A guard: a monotonic guard is never replaced by a non-monotonic one.
#[derive(Debug, Clone, PartialEq, Eq)]
pub struct GuardContribution {
    pub name: String,
    /// Entry name of the guard predicate.
    pub predicate: String,
    pub monotonic: bool,
}

/// A settings overlay: one effective entry per scope, merged field by field.
#[derive(Debug, Clone, PartialEq, Eq)]
pub struct SettingsContribution {
    pub provider: Option<ProviderSettings>,
    pub approval: Option<ApprovalSettings>,
}

/// Provider-side settings; every field is optional.
#[derive(Debug, Clone, PartialEq, Eq)]
pub struct ProviderSettings {
    pub base_url: Option<String>,
    pub model: Option<String>,
    pub protocol: Option<String>,
    pub key: Option<KeyReference>,
    pub fake: Option<bool>,
}

/// A reference to a secret, never the secret itself.
#[derive(Debug, Clone, PartialEq, Eq)]
pub enum KeyReference {
    Env { name: String },
    Keychain { service: String, account: String },
}

/// Approval-policy settings.
#[derive(Debug, Clone, Copy, PartialEq, Eq, Structural)]
pub struct ApprovalSettings {
    pub auto_approve: Option<bool>,
    pub yolo: Option<bool>,
}

/// The lifecycle seams a module may hook.
#[derive(Debug, Clone, Copy, PartialEq, Eq, Structural, Hash)]
pub enum HookKind {
    OnTurnStart,
    OnToolIntent,
}

pub open spec fn hook_name(kind: HookKind) -> Seq<char> {
    match kind {
        HookKind::OnTurnStart => "on_turn_start"@,
        HookKind::OnToolIntent => "on_tool_intent"@,
    }
}

impl HookKind {
    /// The stable wire name.
    pub fn as_str(&self) -> (r: &'static str)
        ensures
            r@ == hook_name(*self),
    {
        match self {
            HookKind::OnTurnStart => "on_turn_start",
            HookKind::OnToolIntent => "on_tool_intent",
        }
    }
}

/// A hook: several modules may hook the same kind, so hooks always merge.
#[derive(Debug, Clone, PartialEq, Eq)]
pub struct HookContribution {
    pub name: String,
    pub hook: HookKind,
}

// ---------- views ----------

pub struct ContributionView {
    pub scope: Seq<Seq<char>>,
    pub kind: KindView,
}

pub enum KindView {
    Command { name: Seq<char>, handler: Seq<char> },
    Tool { name: Seq<char>, manifest: JsonView, handler: Seq<char> },
    Service { key: KeyView, provider: ProviderView, deps: Seq<DependencyView> },
    Keymap {
        key: Seq<char>,
        context: ContextPredicate,
        action: Seq<char>,
        origin: KeymapOrigin,
        owner: Option<Seq<char>>,
    },
    Theme { name: Seq<char>, overlay: JsonView },
    ProjectionStage { slot: Seq<char>, ordering: u32, handler: Seq<char> },
    UiMount { name: Seq<char>, component: Seq<char>, slot: Option<Seq<char>> },
    Guard { name: Seq<char>, predicate: Seq<char>, monotonic: bool },
    Settings(SettingsView),
    Hook { name: Seq<char>, hook: HookKind },
}

pub struct SettingsView {
    pub provider: Option<ProviderSettingsView>,
    pub approval: Option<ApprovalSettings>,
}

pub struct ProviderSettingsView {
    pub base_url: Option<Seq<char>>,
    pub model: Option<Seq<char>>,
    pub protocol: Option<Seq<char>>,
    pub key: Option<KeyReferenceView>,
    pub fake: Option<bool>,
}

pub enum KeyReferenceView {
    Env { name: Seq<char> },
    Keychain { service: Seq<char>, account: Seq<char> },
}

impl View for KeyReference {
    type V = KeyReferenceView;

    open spec fn view(&self) -> KeyReferenceView {
        match *self {
            KeyReference::Env { name } => KeyReferenceView::Env { name: name@ },
            KeyReference::Keychain { service, account } => KeyReferenceView::Keychain {
                service: service@,
                account: account@,
            },
        }
    }
}

impl Value for KeyReference {
    fn copy(&self) -> (r: Self) {
        match self {
            KeyReference::Env { name } => KeyReference::Env { name: name.clone() },
            KeyReference::Keychain { service, account } => KeyReference::Keychain {
                service: service.clone(),
                account: account.clone(),
            },
        }
    }

    fn same(&self, other: &Self) -> (r: bool) {
        match (self, other) {
            (KeyReference::Env { name }, KeyReference::Env { name: n }) => name.same(n),
            (
                KeyReference::Keychain { service, account },
                KeyReference::Keychain { service: s, account: a },
            ) => service.same(s) && account.same(a),
            _ => false,
        }
    }
}

impl View for ProviderSettings {
    type V = ProviderSettingsView;

    open spec fn view(&self) -> ProviderSettingsView {
        ProviderSettingsView {
            base_url: value::opt_view(self.base_url),
            model: value::opt_view(self.model),
            protocol: value::opt_view(self.protocol),
            key: value::opt_view(self.key),
            fake: self.fake,
        }
    }
}

fn same_flag(a: &Option<bool>, b: &Option<bool>) -> (r: bool)
    ensures
        r == (*a == *b),
{
    match (a, b) {
        (Some(x), Some(y)) => *x == *y,
        (None, None) => true,
        _ => false,
    }
}

impl Value for ProviderSettings {
    fn copy(&self) -> (r: Self) {
        ProviderSettings {
            base_url: value::copy_opt(&self.base_url),
            model: value::copy_opt(&self.model),
            protocol: value::copy_opt(&self.protocol),
            key: value::copy_opt(&self.key),
            fake: self.fake,
        }
    }

    fn same(&self, other: &Self) -> (r: bool) {
        value::same_opt(&self.base_url, &other.base_url) && value::same_opt(
            &self.model,
            &other.model,
        ) && value::same_opt(&self.protocol, &other.protocol) && value::same_opt(
            &self.key,
            &other.key,
        ) && same_flag(&self.fake, &other.fake)
    }
}

impl View for ApprovalSettings {
    type V = ApprovalSettings;

    open spec fn view(&self) -> ApprovalSettings {
        *self
    }
}

impl Value for ApprovalSettings {
    fn copy(&self) -> (r: Self) {
        *self
    }

    fn same(&self, other: &Self) -> (r: bool) {
        same_flag(&self.auto_approve, &other.auto_approve) && same_flag(&self.yolo, &other.yolo)
    }
}

impl View for SettingsContribution {
    type V = SettingsView;

    open spec fn view(&self) -> SettingsView {
        SettingsView {
            provider: value::opt_view(self.provider),
            approval: value::opt_view(self.approval),
        }
    }
}

impl Value for SettingsContribution {
    fn copy(&self) -> (r: Self) {
        SettingsContribution {
            provider: value::copy_opt(&self.provider),
            approval: value::copy_opt(&self.approval),
        }
    }

    fn same(&self, other: &Self) -> (r: bool) {
        value::same_opt(&self.provider, &other.provider) && value::same_opt(
            &self.approval,
            &other.approval,
        )
    }
}

/// The empty overlay: every field unset.
pub open spec fn no_settings() -> SettingsView {
    SettingsView { provider: None, approval: None }
}

impl Default for SettingsContribution {
    fn default() -> (r: Self)
        ensures
            r@ == no_settings(),
    {
        SettingsContribution { provider: None, approval: None }
    }
}

impl Default for ProviderSettings {
    fn default() -> (r: Self)
        ensures
            r@ == (ProviderSettingsView {
                base_url: None,
                model: None,
                protocol: None,
                key: None,
                fake: None,
            }),
    {
        ProviderSettings { base_url: None, model: None, protocol: None, key: None, fake: None }
    }
}

impl Default for ApprovalSettings {
    fn default() -> (r: Self)
        ensures
            r == (ApprovalSettings { auto_approve: None, yolo: None }),
    {
        ApprovalSettings { auto_approve: None, yolo: None }
    }
}

impl View for ContributionKind {
    type V = KindView;

    open spec fn view(&self) -> KindView {
        match *self {
            ContributionKind::Command(c) => KindView::Command {
                name: c.name@,
                handler: c.handler@,
            },
            ContributionKind::Tool(t) => KindView::Tool {
                name: t.name@,
                manifest: t.manifest@,
                handler: t.handler@,
            },
            ContributionKind::Service(s) => KindView::Service {
                key: s.key@,
                provider: s.provider@,
                deps: value::views(s.deps@),
            },
            ContributionKind::Keymap(k) => KindView::Keymap {
                key: k.key@,
                context: k.context,
                action: k.action@,
                origin: k.origin,
                owner: value::opt_view(k.owner),
            },
            ContributionKind::Theme(t) => KindView::Theme { name: t.name@, overlay: t.overlay@ },
            ContributionKind::ProjectionStage(p) => KindView::ProjectionStage {
                slot: p.slot@,
                ordering: p.ordering,
                handler: p.handler@,
            },
            ContributionKind::UiMount(u) => KindView::UiMount {
                name: u.name@,
                component: u.component@,
                slot: value::opt_view(u.slot),
            },
            ContributionKind::Guard(g) => KindView::Guard {
                name: g.name@,
                predicate: g.predicate@,
                monotonic: g.monotonic,
            },
            ContributionKind::Settings(s) => KindView::Settings(s@),
            ContributionKind::Hook(h) => KindView::Hook { name: h.name@, hook: h.hook },
        }
    }
}

impl View for Contribution {
    type V = ContributionView;

    open spec fn view(&self) -> ContributionView {
        ContributionView { scope: self.scope@, kind: self.kind@ }
    }
}

impl ContributionKind {
    /// A copy of the same kind.
    pub fn copy(&self) -> (r: Self)
        ensures
            r@ == self@,
    {
        match self {
            ContributionKind::Command(c) => ContributionKind::Command(
                CommandContribution { name: c.name.clone(), handler: c.handler.clone() },
            ),
            ContributionKind::Tool(t) => ContributionKind::Tool(
                ToolContribution {
                    name: t.name.clone(),
                    manifest: t.manifest.copy(),
                    handler: t.handler.clone(),
                },
            ),
            ContributionKind::Service(s) => ContributionKind::Service(
                ServiceContribution {
                    key: s.key.copy(),
                    provider: s.provider.copy(),
                    deps: value::copy_vec(&s.deps),
                },
            ),
            ContributionKind::Keymap(k) => ContributionKind::Keymap(
                Keybinding {
                    key: k.key.clone(),
                    context: k.context,
                    action: k.action.clone(),
                    origin: k.origin,
                    owner: value::copy_opt(&k.owner),
                },
            ),
            ContributionKind::Theme(t) => ContributionKind::Theme(
                ThemeContribution { name: t.name.clone(), overlay: t.overlay.copy() },
            ),
            ContributionKind::ProjectionStage(p) => ContributionKind::ProjectionStage(
                ProjectionStageContribution {
                    slot: p.slot.clone(),
                    ordering: p.ordering,
                    handler: p.handler.clone(),
                },
            ),
            ContributionKind::UiMount(u) => ContributionKind::UiMount(
                UiMountContribution {
                    name: u.name.clone(),
                    component: u.component.clone(),
                    slot: value::copy_opt(&u.slot),
                },
            ),
            ContributionKind::Guard(g) => ContributionKind::Guard(
                GuardContribution {
                    name: g.name.clone(),
                    predicate: g.predicate.clone(),
                    monotonic: g.monotonic,
                },
            ),
            ContributionKind::Settings(s) => ContributionKind::Settings(s.copy()),
            ContributionKind::Hook(h) => ContributionKind::Hook(
                HookContribution { name: h.name.clone(), hook: h.hook },
            ),
        }
    }
}

impl Contribution {
    /// A copy of the contribution.
    pub fn copy(&self) -> (r: Self)
        ensures
            r@ == self@,
    {
        Contribution { scope: self.scope.copy(), kind: self.kind.copy() }
    }
}

// ---------- tags and identities ----------

/// The kind tag used for conflicts and snapshot ordering.
pub open spec fn tag(kind: KindView) -> Seq<char> {
    match kind {
        KindView::Command { .. } => "command"@,
        KindView::Tool { .. } => "tool"@,
        KindView::Service { .. } => "service"@,
        KindView::Keymap { .. } => "keymap"@,
        KindView::Theme { .. } => "theme"@,
        KindView::ProjectionStage { .. } => "stage"@,
        KindView::UiMount { .. } => "ui"@,
        KindView::Guard { .. } => "guard"@,
        KindView::Settings(_) => "settings"@,
        KindView::Hook { .. } => "hook"@,
    }
}

/// The identity a contribution occupies within its scope; nothing for the
/// kinds that merge and for guards, which are never replaced implicitly.
pub open spec fn identity(kind: KindView) -> Option<Seq<char>> {
    match kind {
        KindView::Command { name, .. } => Some("command\u{1f}"@ + name),
        KindView::Tool { name, .. } => Some("tool\u{1f}"@ + name),
        KindView::Service { key, .. } => Some("service\u{1f}"@ + key.name),
        KindView::ProjectionStage { slot, ordering, .. } => Some(
            "stage\u{1f}"@ + slot + "\u{1f}"@ + text::decimal(ordering as nat),
        ),
        KindView::UiMount { name, .. } => Some("ui\u{1f}"@ + name),
        _ => None,
    }
}

impl ContributionKind {
    /// The kind tag used for conflicts and snapshot ordering.
    pub fn kind_tag(&self) -> (r: &'static str)
        ensures
            r@ == tag(self@),
    {
        match self {
            ContributionKind::Command(_) => "command",
            ContributionKind::Tool(_) => "tool",
            ContributionKind::Service(_) => "service",
            ContributionKind::Keymap(_) => "keymap",
            ContributionKind::Theme(_) => "theme",
            ContributionKind::ProjectionStage(_) => "stage",
            ContributionKind::UiMount(_) => "ui",
            ContributionKind::Guard(_) => "guard",
            ContributionKind::Settings(_) => "settings",
            ContributionKind::Hook(_) => "hook",
        }
    }

    /// The identity by which a higher-precedence layer replaces a lower one;
    /// nothing for the kinds that merge and for guards.
    pub fn override_identity(&self) -> (r: Option<String>)
        ensures
            value::opt_view(r) == identity(self@),
    {
        match self {
            ContributionKind::Command(c) => Some(text::cat2("command\u{1f}", c.name.as_str())),
            ContributionKind::Tool(t) => Some(text::cat2("tool\u{1f}", t.name.as_str())),
            ContributionKind::Service(s) => Some(
                text::cat2("service\u{1f}", s.key.name.as_str()),
            ),
            ContributionKind::ProjectionStage(p) => {
                let number = text::decimal_text(p.ordering as u64);
                let mut s = text::cat3("stage\u{1f}", p.slot.as_str(), "\u{1f}");
                s.append(number.as_str());
                Some(s)
            },
            ContributionKind::UiMount(u) => Some(text::cat2("ui\u{1f}", u.name.as_str())),
            ContributionKind::Keymap(_)
            | ContributionKind::Theme(_)
            | ContributionKind::Guard(_)
            | ContributionKind::Settings(_)
            | ContributionKind::Hook(_) => None,
        }
    }
}

// ---------- encoding ----------

pub open spec fn tagged(name: Seq<char>, fields: Seq<FieldView>) -> JsonView {
    JsonView::Object(json::fields1(json::fv(name, JsonView::Object(fields))))
}

pub open spec fn opt_text_json(t: Option<Seq<char>>) -> JsonView {
    match t {
        Some(t) => JsonView::Text(t),
        None => JsonView::Null,
    }
}

pub open spec fn opt_flag_json(b: Option<bool>) -> JsonView {
    match b {
        Some(b) => JsonView::Bool(b),
        None => JsonView::Null,
    }
}

pub open spec fn texts_json(s: Seq<Seq<char>>) -> JsonView {
    JsonView::List(s.map_values(|t: Seq<char>| JsonView::Text(t)))
}

pub open spec fn key_json(key: KeyView) -> JsonView {
    JsonView::Object(
        json::fields2(json::fv("scope"@, texts_json(key.scope)), json::fv("name"@, JsonView::Text(key.name))),
    )
}

pub open spec fn contract_json(c: ContractView) -> JsonView {
    JsonView::Object(
        json::fields2(
            json::fv("name"@, JsonView::Text(c.name)),
            json::fv("version"@, JsonView::Unsigned(c.version as u64)),
        ),
    )
}

pub open spec fn provider_json(p: ProviderView) -> JsonView {
    JsonView::Object(
        json::fields3(
            json::fv("module_id"@, JsonView::Text(p.module_id)),
            json::fv("generation"@, JsonView::Unsigned(p.generation)),
            json::fv("contract"@, contract_json(p.contract)),
        ),
    )
}

pub open spec fn dependency_json(d: DependencyView) -> JsonView {
    JsonView::Object(
        json::fields2(
            json::fv("key"@, key_json(d.key)),
            json::fv("required_version"@, JsonView::Unsigned(d.required_version as u64)),
        ),
    )
}

pub open spec fn context_json(c: ContextPredicate) -> JsonView {
    JsonView::Text(
        match c {
            ContextPredicate::Always => "always"@,
            ContextPredicate::Modal => "modal"@,
            ContextPredicate::Overlay => "overlay"@,
        },
    )
}

pub open spec fn origin_json(o: KeymapOrigin) -> JsonView {
    JsonView::Text(
        match o {
            KeymapOrigin::Builtin => "builtin"@,
            KeymapOrigin::Plugin => "plugin"@,
            KeymapOrigin::UserConfig => "user_config"@,
        },
    )
}

pub open spec fn reference_json(k: Option<KeyReferenceView>) -> JsonView {
    match k {
        None => JsonView::Null,
        Some(KeyReferenceView::Env { name }) => tagged(
            "Env"@,
            json::fields1(json::fv("name"@, JsonView::Text(name))),
        ),
        Some(KeyReferenceView::Keychain { service, account }) => tagged(
            "Keychain"@,
            json::fields2(
                json::fv("service"@, JsonView::Text(service)),
                json::fv("account"@, JsonView::Text(account)),
            ),
        ),
    }
}

pub open spec fn provider_settings_json(p: Option<ProviderSettingsView>) -> JsonView {
    match p {
        None => JsonView::Null,
        Some(p) => JsonView::Object(
            json::fields5(
                json::fv("base_url"@, opt_text_json(p.base_url)),
                json::fv("model"@, opt_text_json(p.model)),
                json::fv("protocol"@, opt_text_json(p.protocol)),
                json::fv("key"@, reference_json(p.key)),
                json::fv("fake"@, opt_flag_json(p.fake)),
            ),
        ),
    }
}

pub open spec fn approval_json(a: Option<ApprovalSettings>) -> JsonView {
    match a {
        None => JsonView::Null,
        Some(a) => JsonView::Object(
            json::fields2(
                json::fv("auto_approve"@, opt_flag_json(a.auto_approve)),
                json::fv("yolo"@, opt_flag_json(a.yolo)),
            ),
        ),
    }
}

/// The encoding of a contribution kind: its name, with its fields in their
/// declared order.
pub open spec fn kind_json(kind: KindView) -> JsonView {
    match kind {
        KindView::Command { name, handler } => tagged(
            "Command"@,
            json::fields2(json::fv("name"@, JsonView::Text(name)), json::fv("handler"@, JsonView::Text(handler))),
        ),
        KindView::Tool { name, manifest, handler } => tagged(
            "Tool"@,
            json::fields3(
                json::fv("name"@, JsonView::Text(name)),
                json::fv("manifest"@, manifest),
                json::fv("handler"@, JsonView::Text(handler)),
            ),
        ),
        KindView::Service { key, provider, deps } => tagged(
            "Service"@,
            json::fields3(
                json::fv("key"@, key_json(key)),
                json::fv("provider"@, provider_json(provider)),
                json::fv(
                    "deps"@,
                    JsonView::List(deps.map_values(|d: DependencyView| dependency_json(d))),
                ),
            ),
        ),
        KindView::Keymap { key, context, action, origin, owner } => tagged(
            "Keymap"@,
            json::fields5(
                json::fv("key"@, JsonView::Text(key)),
                json::fv("context"@, context_json(context)),
                json::fv("action"@, JsonView::Text(action)),
                json::fv("origin"@, origin_json(origin)),
                json::fv("owner"@, opt_text_json(owner)),
            ),
        ),
        KindView::Theme { name, overlay } => tagged(
            "Theme"@,
            json::fields2(json::fv("name"@, JsonView::Text(name)), json::fv("overlay"@, overlay)),
        ),
        KindView::ProjectionStage { slot, ordering, handler } => tagged(
            "ProjectionStage"@,
            json::fields3(
                json::fv("slot"@, JsonView::Text(slot)),
                json::fv("ordering"@, JsonView::Unsigned(ordering as u64)),
                json::fv("handler"@, JsonView::Text(handler)),
            ),
        ),
        KindView::UiMount { name, component, slot } => tagged(
            "UiMount"@,
            json::fields3(
                json::fv("name"@, JsonView::Text(name)),
                json::fv("component"@, JsonView::Text(component)),
                json::fv("slot"@, opt_text_json(slot)),
            ),
        ),
        KindView::Guard { name, predicate, monotonic } => tagged(
            "Guard"@,
            json::fields3(
                json::fv("name"@, JsonView::Text(name)),
                json::fv("predicate"@, JsonView::Text(predicate)),
                json::fv("monotonic"@, JsonView::Bool(monotonic)),
            ),
        ),
        KindView::Settings(s) => tagged(
            "Settings"@,
            json::fields2(
                json::fv("provider"@, provider_settings_json(s.provider)),
                json::fv("approval"@, approval_json(s.approval)),
            ),
        ),
        KindView::Hook { name, hook } => tagged(
            "Hook"@,
            json::fields2(
                json::fv("name"@, JsonView::Text(name)),
                json::fv("hook"@, JsonView::Text(hook_name(hook))),
            ),
        ),
    }
}

/// The encoding of a contribution.
pub open spec fn contribution_json(c: ContributionView) -> JsonView {
    JsonView::Object(json::fields2(json::fv("scope"@, texts_json(c.scope)), json::fv("kind"@, kind_json(c.kind))))
}

fn texts(parts: &Vec<String>) -> (r: Json)
    ensures
        r@ == texts_json(value::views(parts@)),
{
    let mut out: Vec<Json> = Vec::new();
    let mut i: usize = 0;
    while i < parts.len()
        invariant
            i <= parts.len(),
            out.len() == i,
            forall|k: int|
                0 <= k < i ==> (#[trigger] out@[k])@ == JsonView::Text(parts@[k]@),
        decreases parts.len() - i,
    {
        out.push(Json::Text(parts[i].clone()));
        i = i + 1;
    }
    proof {
        json::lemma_list_view(out@);
        assert(value::views(out@) =~= value::views(parts@).map_values(
            |t: Seq<char>| JsonView::Text(t),
        ));
    }
    Json::List(out)
}

fn opt_text(t: &Option<String>) -> (r: Json)
    ensures
        r@ == opt_text_json(value::opt_view(*t)),
{
    match t {
        Some(t) => Json::Text(t.clone()),
        None => Json::Null,
    }
}

fn opt_flag(b: &Option<bool>) -> (r: Json)
    ensures
        r@ == opt_flag_json(*b),
{
    match b {
        Some(b) => Json::Bool(*b),
        None => Json::Null,
    }
}

fn tag_with(name: &str, fields: Vec<Field>) -> (r: Json)
    ensures
        r@ == tagged(name@, value::views(fields@)),
{
    json::record(json::field(json::no_fields(), name, json::record(fields)))
}

pub fn encode_key(key: &ServiceKey) -> (r: Json)
    ensures
        r@ == key_json(key@),
{
    let f = json::field(json::no_fields(), "scope", texts(&key.scope.0));
    let f = json::field(f, "name", Json::Text(key.name.clone()));
    json::record(f)
}

fn encode_provider(p: &ServiceProvider) -> (r: Json)
    ensures
        r@ == provider_json(p@),
{
    let c = json::field(json::no_fields(), "name", Json::Text(p.contract.name.clone()));
    let c = json::field(c, "version", Json::Unsigned(p.contract.version as u64));
    let f = json::field(json::no_fields(), "module_id", Json::Text(p.module_id.text.clone()));
    let f = json::field(f, "generation", Json::Unsigned(p.generation));
    let f = json::field(f, "contract", json::record(c));
    json::record(f)
}

fn encode_deps(deps: &Vec<ServiceDependency>) -> (r: Json)
    ensures
        r@ == JsonView::List(
            value::views(deps@).map_values(|d: DependencyView| dependency_json(d)),
        ),
{
    let mut out: Vec<Json> = Vec::new();
    let mut i: usize = 0;
    while i < deps.len()
        invariant
            i <= deps.len(),
            out.len() == i,
            forall|k: int|
                0 <= k < i ==> (#[trigger] out@[k])@ == dependency_json(deps@[k]@),
        decreases deps.len() - i,
    {
        let f = json::field(json::no_fields(), "key", encode_key(&deps[i].key));
        let f = json::field(
            f,
            "required_version",
            Json::Unsigned(deps[i].required_version as u64),
        );
        out.push(json::record(f));
        i = i + 1;
    }
    proof {
        json::lemma_list_view(out@);
        assert(value::views(out@) =~= value::views(deps@).map_values(
            |d: DependencyView| dependency_json(d),
        ));
    }
    Json::List(out)
}

fn encode_settings(s: &SettingsContribution) -> (r: Json)
    ensures
        r@ == kind_json(KindView::Settings(s@)),
{
    let provider = match &s.provider {
        None => Json::Null,
        Some(p) => {
            let key = match &p.key {
                None => Json::Null,
                Some(KeyReference::Env { name }) => {
                    let f = json::field(json::no_fields(), "name", Json::Text(name.clone()));
                    tag_with("Env", f)
                },
                Some(KeyReference::Keychain { service, account }) => {
                    let f = json::field(json::no_fields(), "service", Json::Text(service.clone()));
                    let f = json::field(f, "account", Json::Text(account.clone()));
                    tag_with("Keychain", f)
                },
            };
            let f = json::field(json::no_fields(), "base_url", opt_text(&p.base_url));
            let f = json::field(f, "model", opt_text(&p.model));
            let f = json::field(f, "protocol", opt_text(&p.protocol));
            let f = json::field(f, "key", key);
            let f = json::field(f, "fake", opt_flag(&p.fake));
            json::record(f)
        },
    };
    let approval = match &s.approval {
        None => Json::Null,
        Some(a) => {
            let f = json::field(json::no_fields(), "auto_approve", opt_flag(&a.auto_approve));
            let f = json::field(f, "yolo", opt_flag(&a.yolo));
            json::record(f)
        },
    };
    let f = json::field(json::no_fields(), "provider", provider);
    let f = json::field(f, "approval", approval);
    tag_with("Settings", f)
}

impl ContributionKind {
    /// The encoding of the kind, its fields in their declared order.
    pub fn encode(&self) -> (r: Json)
        ensures
            r@ == kind_json(self@),
    {
        match self {
            ContributionKind::Command(c) => {
                let f = json::field(json::no_fields(), "name", Json::Text(c.name.clone()));
                let f = json::field(f, "handler", Json::Text(c.handler.clone()));
                tag_with("Command", f)
            },
            ContributionKind::Tool(t) => {
                let f = json::field(json::no_fields(), "name", Json::Text(t.name.clone()));
                let f = json::field(f, "manifest", t.manifest.copy());
                let f = json::field(f, "handler", Json::Text(t.handler.clone()));
                tag_with("Tool", f)
            },
            ContributionKind::Service(s) => {
                let f = json::field(json::no_fields(), "key", encode_key(&s.key));
                let f = json::field(f, "provider", encode_provider(&s.provider));
                let f = json::field(f, "deps", encode_deps(&s.deps));
                tag_with("Service", f)
            },
            ContributionKind::Keymap(k) => {
                let context = match k.context {
                    ContextPredicate::Always => "always",
                    ContextPredicate::Modal => "modal",
                    ContextPredicate::Overlay => "overlay",
                };
                let origin = match k.origin {
                    KeymapOrigin::Builtin => "builtin",
                    KeymapOrigin::Plugin => "plugin",
                    KeymapOrigin::UserConfig => "user_config",
                };
                let owner = match &k.owner {
                    Some(id) => Json::Text(id.text.clone()),
                    None => Json::Null,
                };
                let f = json::field(json::no_fields(), "key", Json::Text(k.key.clone()));
                let f = json::field(f, "context", Json::Text(context.to_owned()));
                let f = json::field(f, "action", Json::Text(k.action.clone()));
                let f = json::field(f, "origin", Json::Text(origin.to_owned()));
                let f = json::field(f, "owner", owner);
                tag_with("Keymap", f)
            },
            ContributionKind::Theme(t) => {
                let f = json::field(json::no_fields(), "name", Json::Text(t.name.clone()));
                let f = json::field(f, "overlay", t.overlay.copy());
                tag_with("Theme", f)
            },
            ContributionKind::ProjectionStage(p) => {
                let f = json::field(json::no_fields(), "slot", Json::Text(p.slot.clone()));
                let f = json::field(f, "ordering", Json::Unsigned(p.ordering as u64));
                let f = json::field(f, "handler", Json::Text(p.handler.clone()));
                tag_with("ProjectionStage", f)
            },
            ContributionKind::UiMount(u) => {
                let f = json::field(json::no_fields(), "name", Json::Text(u.name.clone()));
                let f = json::field(f, "component", Json::Text(u.component.clone()));
                let f = json::field(f, "slot", opt_text(&u.slot));
                tag_with("UiMount", f)
            },
            ContributionKind::Guard(g) => {
                let f = json::field(json::no_fields(), "name", Json::Text(g.name.clone()));
                let f = json::field(f, "predicate", Json::Text(g.predicate.clone()));
                let f = json::field(f, "monotonic", Json::Bool(g.monotonic));
                tag_with("Guard", f)
            },
            ContributionKind::Settings(s) => encode_settings(s),
            ContributionKind::Hook(h) => {
                let f = json::field(json::no_fields(), "name", Json::Text(h.name.clone()));
                let f = json::field(f, "hook", Json::Text(h.hook.as_str().to_owned()));
                tag_with("Hook", f)
            },
        }
    }
}

impl Contribution {
    /// The encoding of the contribution.
    pub fn encode(&self) -> (r: Json)
        ensures
            r@ == contribution_json(self@),
    {
        let f = json::field(json::no_fields(), "scope", texts(&self.scope.0));
        let f = json::field(f, "kind", self.kind.encode());
        json::record(f)
    }
}

// ---------- laws ----------

/// The members of an encoded object have different names.
proof fn lemma_member_names()
    ensures
        "name"@ != "handler"@,
        "name"@ != "manifest"@,
        "manifest"@ != "handler"@,
        "key"@ != "provider"@,
        "key"@ != "deps"@,
        "provider"@ != "deps"@,
        "key"@ != "context"@,
        "key"@ != "action"@,
        "key"@ != "origin"@,
        "key"@ != "owner"@,
        "context"@ != "action"@,
        "context"@ != "origin"@,
        "context"@ != "owner"@,
        "action"@ != "origin"@,
        "action"@ != "owner"@,
        "origin"@ != "owner"@,
        "name"@ != "overlay"@,
        "slot"@ != "ordering"@,
        "slot"@ != "handler"@,
        "ordering"@ != "handler"@,
        "name"@ != "component"@,
        "name"@ != "slot"@,
        "component"@ != "slot"@,
        "name"@ != "predicate"@,
        "name"@ != "monotonic"@,
        "predicate"@ != "monotonic"@,
        "provider"@ != "approval"@,
        "name"@ != "hook"@,
        "scope"@ != "name"@,
        "scope"@ != "kind"@,
        "name"@ != "version"@,
        "module_id"@ != "generation"@,
        "module_id"@ != "contract"@,
        "generation"@ != "contract"@,
        "key"@ != "required_version"@,
        "service"@ != "account"@,
        "base_url"@ != "model"@,
        "base_url"@ != "protocol"@,
        "base_url"@ != "key"@,
        "base_url"@ != "fake"@,
        "model"@ != "protocol"@,
        "model"@ != "key"@,
        "model"@ != "fake"@,
        "protocol"@ != "key"@,
        "protocol"@ != "fake"@,
        "key"@ != "fake"@,
        "auto_approve"@ != "yolo"@,
{
    reveal_strlit("name");
    reveal_strlit("handler");
    reveal_strlit("manifest");
    reveal_strlit("key");
    reveal_strlit("provider");
    reveal_strlit("deps");
    reveal_strlit("context");
    reveal_strlit("action");
    reveal_strlit("origin");
    reveal_strlit("owner");
    reveal_strlit("overlay");
    reveal_strlit("slot");
    reveal_strlit("ordering");
    reveal_strlit("component");
    reveal_strlit("predicate");
    reveal_strlit("monotonic");
    reveal_strlit("approval");
    reveal_strlit("hook");
    reveal_strlit("scope");
    reveal_strlit("kind");
    reveal_strlit("version");
    reveal_strlit("module_id");
    reveal_strlit("generation");
    reveal_strlit("contract");
    reveal_strlit("required_version");
    reveal_strlit("service");
    reveal_strlit("account");
    reveal_strlit("base_url");
    reveal_strlit("model");
    reveal_strlit("protocol");
    reveal_strlit("fake");
    reveal_strlit("auto_approve");
    reveal_strlit("yolo");
    assert("name"@.len() != "handler"@.len());
    assert("name"@.len() != "manifest"@.len());
    assert("manifest"@.len() != "handler"@.len());
    assert("key"@.len() != "provider"@.len());
    assert("key"@.len() != "deps"@.len());
    assert("provider"@.len() != "deps"@.len());
    assert("key"@.len() != "context"@.len());
    assert("key"@.len() != "action"@.len());
    assert("key"@.len() != "origin"@.len());
    assert("key"@.len() != "owner"@.len());
    assert("context"@.len() != "action"@.len());
    assert("context"@.len() != "origin"@.len());
    assert("context"@.len() != "owner"@.len());
    assert("action"@[0] != "origin"@[0]);
    assert("action"@.len() != "owner"@.len());
    assert("origin"@.len() != "owner"@.len());
    assert("name"@.len() != "overlay"@.len());
    assert("slot"@.len() != "ordering"@.len());
    assert("slot"@.len() != "handler"@.len());
    assert("ordering"@.len() != "handler"@.len());
    assert("name"@.len() != "component"@.len());
    assert("name"@[0] != "slot"@[0]);
    assert("component"@.len() != "slot"@.len());
    assert("name"@.len() != "predicate"@.len());
    assert("name"@.len() != "monotonic"@.len());
    assert("predicate"@[0] != "monotonic"@[0]);
    assert("provider"@[0] != "approval"@[0]);
    assert("name"@[0] != "hook"@[0]);
    assert("scope"@.len() != "name"@.len());
    assert("scope"@.len() != "kind"@.len());
    assert("name"@.len() != "version"@.len());
    assert("module_id"@.len() != "generation"@.len());
    assert("module_id"@.len() != "contract"@.len());
    assert("generation"@.len() != "contract"@.len());
    assert("key"@.len() != "required_version"@.len());
    assert("service"@[0] != "account"@[0]);
    assert("base_url"@.len() != "model"@.len());
    assert("base_url"@[0] != "protocol"@[0]);
    assert("base_url"@.len() != "key"@.len());
    assert("base_url"@.len() != "fake"@.len());
    assert("model"@.len() != "protocol"@.len());
    assert("model"@.len() != "key"@.len());
    assert("model"@.len() != "fake"@.len());
    assert("protocol"@.len() != "key"@.len());
    assert("protocol"@.len() != "fake"@.len());
    assert("key"@.len() != "fake"@.len());
    assert("auto_approve"@.len() != "yolo"@.len());
}

proof fn lemma_tag(m: Seq<char>, a: Seq<FieldView>, n: Seq<char>, b: Seq<FieldView>)
    requires
        json::normal(tagged(m, a)) == json::normal(tagged(n, b)),
    ensures
        m == n,
        json::normal(JsonView::Object(a)) == json::normal(JsonView::Object(b)),
{
    json_laws::lemma_sorted1(
        json::fv(m, JsonView::Object(a)),
        json::fv(n, JsonView::Object(b)),
    );
}

proof fn lemma_texts(a: Seq<Seq<char>>, b: Seq<Seq<char>>)
    requires
        json::normal(texts_json(a)) == json::normal(texts_json(b)),
    ensures
        a == b,
{
    let x = a.map_values(|t: Seq<char>| JsonView::Text(t));
    let y = b.map_values(|t: Seq<char>| JsonView::Text(t));
    json_laws::lemma_sorted_items(x, y);
    assert(x.len() == a.len() && y.len() == b.len());
    assert forall|i: int| 0 <= i < a.len() implies a[i] == b[i] by {
        assert(json::normal(x[i]) == json::normal(y[i]));
    }
    assert(a =~= b);
}

proof fn lemma_key(a: KeyView, b: KeyView)
    requires
        json::normal(key_json(a)) == json::normal(key_json(b)),
    ensures
        a == b,
{
    lemma_member_names();
    json_laws::lemma_sorted2(
        json::fv("scope"@, texts_json(a.scope)),
        json::fv("name"@, JsonView::Text(a.name)),
        json::fv("scope"@, texts_json(b.scope)),
        json::fv("name"@, JsonView::Text(b.name)),
    );
    lemma_texts(a.scope, b.scope);
}

proof fn lemma_provider(a: ProviderView, b: ProviderView)
    requires
        json::normal(provider_json(a)) == json::normal(provider_json(b)),
    ensures
        a == b,
{
    lemma_member_names();
    json_laws::lemma_sorted3(
        json::fv("module_id"@, JsonView::Text(a.module_id)),
        json::fv("generation"@, JsonView::Unsigned(a.generation)),
        json::fv("contract"@, contract_json(a.contract)),
        json::fv("module_id"@, JsonView::Text(b.module_id)),
        json::fv("generation"@, JsonView::Unsigned(b.generation)),
        json::fv("contract"@, contract_json(b.contract)),
    );
    json_laws::lemma_sorted2(
        json::fv("name"@, JsonView::Text(a.contract.name)),
        json::fv("version"@, JsonView::Unsigned(a.contract.version as u64)),
        json::fv("name"@, JsonView::Text(b.contract.name)),
        json::fv("version"@, JsonView::Unsigned(b.contract.version as u64)),
    );
}

proof fn lemma_dependencies(a: Seq<DependencyView>, b: Seq<DependencyView>)
    requires
        json::normal(
            JsonView::List(a.map_values(|d: DependencyView| dependency_json(d))),
        ) == json::normal(JsonView::List(b.map_values(|d: DependencyView| dependency_json(d)))),
    ensures
        a == b,
{
    let x = a.map_values(|d: DependencyView| dependency_json(d));
    let y = b.map_values(|d: DependencyView| dependency_json(d));
    json_laws::lemma_sorted_items(x, y);
    lemma_member_names();
    assert forall|i: int| 0 <= i < a.len() implies a[i] == b[i] by {
        assert(json::normal(x[i]) == json::normal(y[i]));
        json_laws::lemma_sorted2(
            json::fv("key"@, key_json(a[i].key)),
            json::fv("required_version"@, JsonView::Unsigned(a[i].required_version as u64)),
            json::fv("key"@, key_json(b[i].key)),
            json::fv("required_version"@, JsonView::Unsigned(b[i].required_version as u64)),
        );
        lemma_key(a[i].key, b[i].key);
    }
    assert(a =~= b);
}

/// The name that a kind is encoded under.
spec fn kind_name(k: KindView) -> Seq<char> {
    match k {
        KindView::Command { .. } => "Command"@,
        KindView::Tool { .. } => "Tool"@,
        KindView::Service { .. } => "Service"@,
        KindView::Keymap { .. } => "Keymap"@,
        KindView::Theme { .. } => "Theme"@,
        KindView::ProjectionStage { .. } => "ProjectionStage"@,
        KindView::UiMount { .. } => "UiMount"@,
        KindView::Guard { .. } => "Guard"@,
        KindView::Settings(_) => "Settings"@,
        KindView::Hook { .. } => "Hook"@,
    }
}

/// The names of the kinds differ.
proof fn lemma_names_differ(a: KindView, b: KindView)
    requires
        kind_name(a) == kind_name(b),
    ensures
        a is Command <==> b is Command,
        a is Tool <==> b is Tool,
        a is Service <==> b is Service,
        a is Keymap <==> b is Keymap,
        a is Theme <==> b is Theme,
        a is ProjectionStage <==> b is ProjectionStage,
        a is UiMount <==> b is UiMount,
        a is Guard <==> b is Guard,
        a is Settings <==> b is Settings,
        a is Hook <==> b is Hook,
{
    reveal_strlit("Command");
    reveal_strlit("Tool");
    reveal_strlit("Service");
    reveal_strlit("Keymap");
    reveal_strlit("Theme");
    reveal_strlit("ProjectionStage");
    reveal_strlit("UiMount");
    reveal_strlit("Guard");
    reveal_strlit("Settings");
    reveal_strlit("Hook");
    assert("Command"@.len() == 7 && "Command"@[0] == 'C');
    assert("Tool"@.len() == 4 && "Tool"@[0] == 'T');
    assert("Service"@.len() == 7 && "Service"@[0] == 'S');
    assert("Keymap"@.len() == 6 && "Keymap"@[0] == 'K');
    assert("Theme"@.len() == 5 && "Theme"@[0] == 'T');
    assert("ProjectionStage"@.len() == 15 && "ProjectionStage"@[0] == 'P');
    assert("UiMount"@.len() == 7 && "UiMount"@[0] == 'U');
    assert("Guard"@.len() == 5 && "Guard"@[0] == 'G');
    assert("Settings"@.len() == 8 && "Settings"@[0] == 'S');
    assert("Hook"@.len() == 4 && "Hook"@[0] == 'H');
    let x = kind_name(a);
    let y = kind_name(b);
    assert(x.len() == y.len() && x[0] == y[0]);
}

/// The members that a kind is encoded with.
spec fn members_of(k: KindView) -> Seq<FieldView> {
    kind_json(k)->Object_0[0].value->Object_0
}

proof fn lemma_kind_shape(k: KindView)
    ensures
        kind_json(k) == tagged(kind_name(k), members_of(k)),
{
    let name = kind_name(k);
    match kind_json(k) {
        JsonView::Object(f) => {
            assert(f.len() == 1 && f[0].name == name);
            assert(f[0].value is Object);
            assert(f =~= json::fields1(json::fv(name, JsonView::Object(members_of(k)))));
        },
        _ => {},
    }
}

proof fn lemma_reference(a: Option<KeyReferenceView>, b: Option<KeyReferenceView>)
    requires
        json::normal(reference_json(a)) == json::normal(reference_json(b)),
    ensures
        a == b,
{
    lemma_member_names();
    reveal_strlit("Env");
    reveal_strlit("Keychain");
    assert("Env"@.len() != "Keychain"@.len());
    match (a, b) {
        (Some(KeyReferenceView::Env { name: m }), Some(KeyReferenceView::Env { name: n })) => {
            let x = json::fv("name"@, JsonView::Text(m));
            let y = json::fv("name"@, JsonView::Text(n));
            lemma_tag("Env"@, json::fields1(x), "Env"@, json::fields1(y));
            json_laws::lemma_sorted1(x, y);
        },
        (
            Some(KeyReferenceView::Keychain { service: s, account: t }),
            Some(KeyReferenceView::Keychain { service: u, account: v }),
        ) => {
            let p = json::fv("service"@, JsonView::Text(s));
            let q = json::fv("account"@, JsonView::Text(t));
            let x = json::fv("service"@, JsonView::Text(u));
            let y = json::fv("account"@, JsonView::Text(v));
            lemma_tag("Keychain"@, json::fields2(p, q), "Keychain"@, json::fields2(x, y));
            json_laws::lemma_sorted2(p, q, x, y);
        },
        (
            Some(KeyReferenceView::Env { name }),
            Some(KeyReferenceView::Keychain { service, account }),
        ) => {
            lemma_tag(
                "Env"@,
                json::fields1(json::fv("name"@, JsonView::Text(name))),
                "Keychain"@,
                json::fields2(
                    json::fv("service"@, JsonView::Text(service)),
                    json::fv("account"@, JsonView::Text(account)),
                ),
            );
        },
        (
            Some(KeyReferenceView::Keychain { service, account }),
            Some(KeyReferenceView::Env { name }),
        ) => {
            lemma_tag(
                "Keychain"@,
                json::fields2(
                    json::fv("service"@, JsonView::Text(service)),
                    json::fv("account"@, JsonView::Text(account)),
                ),
                "Env"@,
                json::fields1(json::fv("name"@, JsonView::Text(name))),
            );
        },
        _ => {},
    }
}

proof fn lemma_settings(a: SettingsView, b: SettingsView)
    requires
        json::normal(provider_settings_json(a.provider)) == json::normal(
            provider_settings_json(b.provider),
        ),
        json::normal(approval_json(a.approval)) == json::normal(approval_json(b.approval)),
    ensures
        a == b,
{
    lemma_member_names();
    if let (Some(p), Some(q)) = (a.provider, b.provider) {
        json_laws::lemma_sorted5(
            (
                json::fv("base_url"@, opt_text_json(p.base_url)),
                json::fv("model"@, opt_text_json(p.model)),
                json::fv("protocol"@, opt_text_json(p.protocol)),
                json::fv("key"@, reference_json(p.key)),
                json::fv("fake"@, opt_flag_json(p.fake)),
            ),
            (
                json::fv("base_url"@, opt_text_json(q.base_url)),
                json::fv("model"@, opt_text_json(q.model)),
                json::fv("protocol"@, opt_text_json(q.protocol)),
                json::fv("key"@, reference_json(q.key)),
                json::fv("fake"@, opt_flag_json(q.fake)),
            ),
        );
        lemma_reference(p.key, q.key);
        assert(p == q);
    }
    if let (Some(p), Some(q)) = (a.approval, b.approval) {
        json_laws::lemma_sorted2(
            json::fv("auto_approve"@, opt_flag_json(p.auto_approve)),
            json::fv("yolo"@, opt_flag_json(p.yolo)),
            json::fv("auto_approve"@, opt_flag_json(q.auto_approve)),
            json::fv("yolo"@, opt_flag_json(q.yolo)),
        );
        assert(p == q);
    }
}

proof fn lemma_words(c: ContextPredicate, d: ContextPredicate, o: KeymapOrigin, p: KeymapOrigin)
    ensures
        context_json(c) == context_json(d) ==> c == d,
        origin_json(o) == origin_json(p) ==> o == p,
{
    reveal_strlit("always");
    reveal_strlit("modal");
    reveal_strlit("overlay");
    reveal_strlit("builtin");
    reveal_strlit("plugin");
    reveal_strlit("user_config");
    assert("always"@.len() == 6 && "modal"@.len() == 5 && "overlay"@.len() == 7);
    assert("builtin"@.len() == 7 && "plugin"@.len() == 6 && "user_config"@.len() == 11);
}

proof fn lemma_hook_names(a: HookKind, b: HookKind)
    requires
        hook_name(a) == hook_name(b),
    ensures
        a == b,
{
    reveal_strlit("on_turn_start");
    reveal_strlit("on_tool_intent");
    assert("on_turn_start"@.len() != "on_tool_intent"@.len());
}

/// The kinds are the same, the JSON in them up to the order of its fields.
pub open spec fn alike(a: KindView, b: KindView) -> bool {
    match (a, b) {
        (
            KindView::Tool { name: i, manifest: m, handler: j },
            KindView::Tool { name: k, manifest: n, handler: l },
        ) => i == k && j == l && json::normal(m) == json::normal(n),
        (KindView::Theme { name: i, overlay: m }, KindView::Theme { name: j, overlay: n }) => i
            == j && json::normal(m) == json::normal(n),
        _ => a == b,
    }
}

proof fn lemma_sorted_kind(a: KindView, b: KindView)
    requires
        json::normal(kind_json(a)) == json::normal(kind_json(b)),
    ensures
        alike(a, b),
{
    lemma_member_names();
    lemma_kind_shape(a);
    lemma_kind_shape(b);
    lemma_tag(kind_name(a), members_of(a), kind_name(b), members_of(b));
    lemma_names_differ(a, b);
    match (a, b) {
        (
            KindView::Command { name: i, handler: j },
            KindView::Command { name: k, handler: l },
        ) => {
            json_laws::lemma_sorted2(
                json::fv("name"@, JsonView::Text(i)),
                json::fv("handler"@, JsonView::Text(j)),
                json::fv("name"@, JsonView::Text(k)),
                json::fv("handler"@, JsonView::Text(l)),
            );
        },
        (
            KindView::Tool { name: i, manifest: m, handler: j },
            KindView::Tool { name: k, manifest: n, handler: l },
        ) => {
            json_laws::lemma_sorted3(
                json::fv("name"@, JsonView::Text(i)),
                json::fv("manifest"@, m),
                json::fv("handler"@, JsonView::Text(j)),
                json::fv("name"@, JsonView::Text(k)),
                json::fv("manifest"@, n),
                json::fv("handler"@, JsonView::Text(l)),
            );
        },
        (
            KindView::Service { key: j, provider: p, deps: d },
            KindView::Service { key: k, provider: q, deps: e },
        ) => {
            let ds = d.map_values(|d: DependencyView| dependency_json(d));
            let es = e.map_values(|d: DependencyView| dependency_json(d));
            json_laws::lemma_sorted3(
                json::fv("key"@, key_json(j)),
                json::fv("provider"@, provider_json(p)),
                json::fv("deps"@, JsonView::List(ds)),
                json::fv("key"@, key_json(k)),
                json::fv("provider"@, provider_json(q)),
                json::fv("deps"@, JsonView::List(es)),
            );
            lemma_key(j, k);
            lemma_provider(p, q);
            lemma_dependencies(d, e);
        },
        (
            KindView::Keymap { key: i, context: c, action: g, origin: o, owner: s },
            KindView::Keymap { key: j, context: d, action: h, origin: p, owner: t },
        ) => {
            json_laws::lemma_sorted5(
                (
                    json::fv("key"@, JsonView::Text(i)),
                    json::fv("context"@, context_json(c)),
                    json::fv("action"@, JsonView::Text(g)),
                    json::fv("origin"@, origin_json(o)),
                    json::fv("owner"@, opt_text_json(s)),
                ),
                (
                    json::fv("key"@, JsonView::Text(j)),
                    json::fv("context"@, context_json(d)),
                    json::fv("action"@, JsonView::Text(h)),
                    json::fv("origin"@, origin_json(p)),
                    json::fv("owner"@, opt_text_json(t)),
                ),
            );
            lemma_words(c, d, o, p);
        },
        (KindView::Theme { name: i, overlay: m }, KindView::Theme { name: j, overlay: n }) => {
            json_laws::lemma_sorted2(
                json::fv("name"@, JsonView::Text(i)),
                json::fv("overlay"@, m),
                json::fv("name"@, JsonView::Text(j)),
                json::fv("overlay"@, n),
            );
        },
        (
            KindView::ProjectionStage { slot: i, ordering: m, handler: g },
            KindView::ProjectionStage { slot: j, ordering: n, handler: h },
        ) => {
            json_laws::lemma_sorted3(
                json::fv("slot"@, JsonView::Text(i)),
                json::fv("ordering"@, JsonView::Unsigned(m as u64)),
                json::fv("handler"@, JsonView::Text(g)),
                json::fv("slot"@, JsonView::Text(j)),
                json::fv("ordering"@, JsonView::Unsigned(n as u64)),
                json::fv("handler"@, JsonView::Text(h)),
            );
        },
        (
            KindView::UiMount { name: i, component: g, slot: s },
            KindView::UiMount { name: j, component: h, slot: t },
        ) => {
            json_laws::lemma_sorted3(
                json::fv("name"@, JsonView::Text(i)),
                json::fv("component"@, JsonView::Text(g)),
                json::fv("slot"@, opt_text_json(s)),
                json::fv("name"@, JsonView::Text(j)),
                json::fv("component"@, JsonView::Text(h)),
                json::fv("slot"@, opt_text_json(t)),
            );
        },
        (
            KindView::Guard { name: i, predicate: g, monotonic: m },
            KindView::Guard { name: j, predicate: h, monotonic: n },
        ) => {
            json_laws::lemma_sorted3(
                json::fv("name"@, JsonView::Text(i)),
                json::fv("predicate"@, JsonView::Text(g)),
                json::fv("monotonic"@, JsonView::Bool(m)),
                json::fv("name"@, JsonView::Text(j)),
                json::fv("predicate"@, JsonView::Text(h)),
                json::fv("monotonic"@, JsonView::Bool(n)),
            );
        },
        (KindView::Settings(s), KindView::Settings(t)) => {
            json_laws::lemma_sorted2(
                json::fv("provider"@, provider_settings_json(s.provider)),
                json::fv("approval"@, approval_json(s.approval)),
                json::fv("provider"@, provider_settings_json(t.provider)),
                json::fv("approval"@, approval_json(t.approval)),
            );
            lemma_settings(s, t);
        },
        (KindView::Hook { name: i, hook: g }, KindView::Hook { name: j, hook: h }) => {
            json_laws::lemma_sorted2(
                json::fv("name"@, JsonView::Text(i)),
                json::fv("hook"@, JsonView::Text(hook_name(g))),
                json::fv("name"@, JsonView::Text(j)),
                json::fv("hook"@, JsonView::Text(hook_name(h))),
            );
            lemma_hook_names(g, h);
        },
        _ => {},
    }
}

/// Kinds that differ in anything are encoded differently.
pub proof fn lemma_kind(a: KindView, b: KindView)
    requires
        kind_json(a) == kind_json(b),
    ensures
        a == b,
{
    lemma_sorted_kind(a, b);
    lemma_kind_shape(a);
    lemma_kind_shape(b);
    let f = members_of(a);
    let g = members_of(b);
    json::lemma_fields1(
        json::fv(kind_name(a), JsonView::Object(f)),
        json::fv(kind_name(b), JsonView::Object(g)),
    );
    match (a, b) {
        (KindView::Tool { manifest: m, .. }, KindView::Tool { manifest: n, .. }) => {
            assert(f[1].value == m && g[1].value == n);
        },
        (KindView::Theme { overlay: m, .. }, KindView::Theme { overlay: n, .. }) => {
            assert(f[1].value == m && g[1].value == n);
        },
        _ => {},
    }
}

/// The JSON in a contribution has its fields in ascending order.
pub open spec fn is_sorted(c: ContributionView) -> bool {
    match c.kind {
        KindView::Tool { manifest, .. } => json::normal(manifest) == manifest,
        KindView::Theme { overlay, .. } => json::normal(overlay) == overlay,
        _ => true,
    }
}

/// Sorting an encoding loses nothing of a contribution.
pub proof fn lemma_sorted_encoding(a: ContributionView, b: ContributionView)
    requires
        is_sorted(a),
        is_sorted(b),
        json::normal(contribution_json(a)) == json::normal(contribution_json(b)),
    ensures
        a == b,
{
    lemma_member_names();
    json_laws::lemma_sorted2(
        json::fv("scope"@, texts_json(a.scope)),
        json::fv("kind"@, kind_json(a.kind)),
        json::fv("scope"@, texts_json(b.scope)),
        json::fv("kind"@, kind_json(b.kind)),
    );
    lemma_texts(a.scope, b.scope);
    lemma_sorted_kind(a.kind, b.kind);
}

/// Contributions that differ in anything are encoded differently.
pub proof fn law_encodings_tell_contributions_apart(a: ContributionView, b: ContributionView)
    requires
        contribution_json(a) == contribution_json(b),
    ensures
        a == b,
{
    json::lemma_fields2(
        json::fv("scope"@, texts_json(a.scope)),
        json::fv("kind"@, kind_json(a.kind)),
        json::fv("scope"@, texts_json(b.scope)),
        json::fv("kind"@, kind_json(b.kind)),
    );
    lemma_texts(a.scope, b.scope);
    lemma_kind(a.kind, b.kind);
}

/// A modal binding goes before an overlay's and that before a general one, and
/// the user's before a plugin's and that before a built-in one; a binding is live
/// exactly in the context it asks for.
pub proof fn law_bindings_go_by_context_and_origin(ctx: KeyContext)
    ensures
        context_rank(ContextPredicate::Modal) > context_rank(ContextPredicate::Overlay),
        context_rank(ContextPredicate::Overlay) > context_rank(ContextPredicate::Always),
        origin_rank(KeymapOrigin::UserConfig) > origin_rank(KeymapOrigin::Plugin),
        origin_rank(KeymapOrigin::Plugin) > origin_rank(KeymapOrigin::Builtin),
        live_under(ContextPredicate::Always, ctx),
        live_under(ContextPredicate::Modal, ctx) <==> ctx.modal,
        live_under(ContextPredicate::Overlay, ctx) <==> ctx.overlay,
{
}

/// Two contributions that can be replaced have the same identity exactly if they
/// are of the same kind and name, a stage also at the same place; kinds that
/// merge, guards and hooks have none.
pub proof fn law_identities_are_kind_and_name(a: KindView, b: KindView)
    ensures
        identity(a) is None <==> a is Keymap || a is Theme || a is Guard || a is Settings
            || a is Hook,
        a is Command && b is Command ==> (identity(a) == identity(b) <==> a->Command_name
            == b->Command_name),
        a is Tool && b is Tool ==> (identity(a) == identity(b) <==> a->Tool_name == b->Tool_name),
        a is Service && b is Service ==> (identity(a) == identity(b) <==> a->Service_key.name
            == b->Service_key.name),
        a is UiMount && b is UiMount ==> (identity(a) == identity(b) <==> a->UiMount_name
            == b->UiMount_name),
        (a is ProjectionStage && b is ProjectionStage && a->ProjectionStage_slot
            == b->ProjectionStage_slot) ==> (identity(a) == identity(b)
            <==> a->ProjectionStage_ordering == b->ProjectionStage_ordering),
        (identity(a) is Some && identity(a) == identity(b)) ==> tag(a) == tag(b),
{
    reveal_strlit("command\u{1f}");
    reveal_strlit("tool\u{1f}");
    reveal_strlit("service\u{1f}");
    reveal_strlit("stage\u{1f}");
    reveal_strlit("ui\u{1f}");
    if identity(a) is Some && identity(b) is Some && identity(a) == identity(b) {
        let x = identity(a)->0;
        let y = identity(b)->0;
        assert(x[0] == y[0] && x[1] == y[1]);
        if a is Command && b is Command {
            assert(x.skip(8) =~= a->Command_name);
            assert(y.skip(8) =~= b->Command_name);
        }
        if a is Tool && b is Tool {
            assert(x.skip(5) =~= a->Tool_name);
            assert(y.skip(5) =~= b->Tool_name);
        }
        if a is Service && b is Service {
            assert(x.skip(8) =~= a->Service_key.name);
            assert(y.skip(8) =~= b->Service_key.name);
        }
        if a is UiMount && b is UiMount {
            assert(x.skip(3) =~= a->UiMount_name);
            assert(y.skip(3) =~= b->UiMount_name);
        }
        if a is ProjectionStage && b is ProjectionStage && a->ProjectionStage_slot
            == b->ProjectionStage_slot {
            let m = a->ProjectionStage_ordering;
            let n = b->ProjectionStage_ordering;
            let head = "stage\u{1f}"@ + a->ProjectionStage_slot + "\u{1f}"@;
            assert(x.skip(head.len() as int) =~= text::decimal(m as nat));
            assert(y.skip(head.len() as int) =~= text::decimal(n as nat));
            text::law_numerals_are_read_back(m as u64, n as u64);
        }
    }
}

/// Every kind has its tag.
pub proof fn law_kinds_have_their_tags(k: KindView)
    ensures
        k is Command ==> tag(k) == "command"@,
        k is Tool ==> tag(k) == "tool"@,
        k is Service ==> tag(k) == "service"@,
        k is Keymap ==> tag(k) == "keymap"@,
        k is Theme ==> tag(k) == "theme"@,
        k is ProjectionStage ==> tag(k) == "stage"@,
        k is UiMount ==> tag(k) == "ui"@,
        k is Guard ==> tag(k) == "guard"@,
        k is Settings ==> tag(k) == "settings"@,
        k is Hook ==> tag(k) == "hook"@,
{
}

} // verus!
