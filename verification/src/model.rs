//! Model calls: the committed request, the cache outcome, reasoning
//! continuity and the replay of opaque artifacts.
use vstd::prelude::*;
use vstd::string::*;
use crate::branch::{PinnedRoots, PinnedRootsView};
use crate::event;
use crate::event::{Event, EventView, Payload, PayloadView};
use crate::ids::Digest;
use crate::json;
use crate::json::{Json, JsonView};
use crate::session_error::{SessionError, SessionErrorView};
use crate::value;
use crate::value::Value;

verus! {

broadcast use value::group_views;

/// The provider that calls go to. The temperature is a number or null.
#[derive(Debug, Clone, PartialEq, Eq)]
pub struct ProviderConfig {
    pub provider: String,
    pub model: String,
    pub temperature: Json,
    pub max_tokens: Option<u64>,
}

pub struct ProviderConfigView {
    pub provider: Seq<char>,
    pub model: Seq<char>,
    pub temperature: JsonView,
    pub max_tokens: Option<u64>,
}

impl View for ProviderConfig {
    type V = ProviderConfigView;

    open spec fn view(&self) -> ProviderConfigView {
        ProviderConfigView {
            provider: self.provider@,
            model: self.model@,
            temperature: self.temperature@,
            max_tokens: self.max_tokens,
        }
    }
}

impl Value for ProviderConfig {
    fn copy(&self) -> (r: Self) {
        ProviderConfig {
            provider: self.provider.copy(),
            model: self.model.copy(),
            temperature: self.temperature.copy(),
            max_tokens: self.max_tokens,
        }
    }

    fn same(&self, other: &Self) -> (r: bool) {
        self.provider.same(&other.provider)
            && self.model.same(&other.model)
            && self.temperature.same(&other.temperature)
            && value::same_opt(&self.max_tokens, &other.max_tokens)
    }
}

/// What part of a request the provider may serve from its cache.
#[derive(Debug, Clone, PartialEq, Eq)]
pub enum CachePlan {
    Uncached,
    StablePrefix { digest: Digest },
}

pub enum CachePlanView {
    Uncached,
    StablePrefix { digest: Seq<char> },
}

impl View for CachePlan {
    type V = CachePlanView;

    open spec fn view(&self) -> CachePlanView {
        match *self {
            CachePlan::Uncached => CachePlanView::Uncached,
            CachePlan::StablePrefix { digest } => CachePlanView::StablePrefix { digest: digest@ },
        }
    }
}

impl Value for CachePlan {
    fn copy(&self) -> (r: Self) {
        match self {
            CachePlan::Uncached => CachePlan::Uncached,
            CachePlan::StablePrefix { digest } => CachePlan::StablePrefix { digest: digest.copy() },
        }
    }

    fn same(&self, other: &Self) -> (r: bool) {
        match (self, other) {
            (CachePlan::Uncached, CachePlan::Uncached) => true,
            (CachePlan::StablePrefix { digest }, CachePlan::StablePrefix { digest: digest_other }) => digest.same(digest_other),
            _ => false,
        }
    }
}

/// What became of the plan.
#[derive(Debug, Clone, PartialEq, Eq)]
pub enum CacheOutcome {
    Miss,
    Hit,
    Invalidated { reason: String },
}

pub enum CacheOutcomeView {
    Miss,
    Hit,
    Invalidated { reason: Seq<char> },
}

impl View for CacheOutcome {
    type V = CacheOutcomeView;

    open spec fn view(&self) -> CacheOutcomeView {
        match *self {
            CacheOutcome::Miss => CacheOutcomeView::Miss,
            CacheOutcome::Hit => CacheOutcomeView::Hit,
            CacheOutcome::Invalidated { reason } => CacheOutcomeView::Invalidated { reason: reason@ },
        }
    }
}

impl Value for CacheOutcome {
    fn copy(&self) -> (r: Self) {
        match self {
            CacheOutcome::Miss => CacheOutcome::Miss,
            CacheOutcome::Hit => CacheOutcome::Hit,
            CacheOutcome::Invalidated { reason } => CacheOutcome::Invalidated { reason: reason.copy() },
        }
    }

    fn same(&self, other: &Self) -> (r: bool) {
        match (self, other) {
            (CacheOutcome::Miss, CacheOutcome::Miss) => true,
            (CacheOutcome::Hit, CacheOutcome::Hit) => true,
            (CacheOutcome::Invalidated { reason }, CacheOutcome::Invalidated { reason: reason_other }) => reason.same(reason_other),
            _ => false,
        }
    }
}

/// Whether the reasoning follows on from the call before.
#[derive(Debug, Clone, PartialEq, Eq)]
pub enum Continuity {
    Continuous,
    Broken { from_provider: String, at_event: u64, reason: Option<String> },
}

pub enum ContinuityView {
    Continuous,
    Broken { from_provider: Seq<char>, at_event: u64, reason: Option<Seq<char>> },
}

impl View for Continuity {
    type V = ContinuityView;

    open spec fn view(&self) -> ContinuityView {
        match *self {
            Continuity::Continuous => ContinuityView::Continuous,
            Continuity::Broken { from_provider, at_event, reason } => ContinuityView::Broken { from_provider: from_provider@, at_event, reason: value::opt_view(reason) },
        }
    }
}

impl Value for Continuity {
    fn copy(&self) -> (r: Self) {
        match self {
            Continuity::Continuous => Continuity::Continuous,
            Continuity::Broken { from_provider, at_event, reason } => Continuity::Broken { from_provider: from_provider.copy(), at_event: *at_event, reason: value::copy_opt(reason) },
        }
    }

    fn same(&self, other: &Self) -> (r: bool) {
        match (self, other) {
            (Continuity::Continuous, Continuity::Continuous) => true,
            (Continuity::Broken { from_provider, at_event, reason }, Continuity::Broken { from_provider: from_provider_other, at_event: at_event_other, reason: reason_other }) => from_provider.same(from_provider_other) && *at_event == *at_event_other && value::same_opt(reason, reason_other),
            _ => false,
        }
    }
}

/// Who a message is from.
#[derive(Debug, Clone, Copy, PartialEq, Eq, Structural)]
pub enum Role {
    System,
    User,
    Assistant,
    Tool,
}

/// A message of a request.
#[derive(Debug, Clone, PartialEq, Eq)]
pub struct Message {
    pub role: Role,
    pub content: String,
    pub tool_call_id: Option<String>,
}

pub struct MessageView {
    pub role: Role,
    pub content: Seq<char>,
    pub tool_call_id: Option<Seq<char>>,
}

impl View for Message {
    type V = MessageView;

    open spec fn view(&self) -> MessageView {
        MessageView {
            role: self.role,
            content: self.content@,
            tool_call_id: value::opt_view(self.tool_call_id),
        }
    }
}

impl Value for Message {
    fn copy(&self) -> (r: Self) {
        Message {
            role: self.role,
            content: self.content.copy(),
            tool_call_id: value::copy_opt(&self.tool_call_id),
        }
    }

    fn same(&self, other: &Self) -> (r: bool) {
        self.role == other.role
            && self.content.same(&other.content)
            && value::same_opt(&self.tool_call_id, &other.tool_call_id)
    }
}

/// The last materialized projection.
#[derive(Debug, Clone, PartialEq, Eq)]
pub struct ProjectionState {
    pub projection_digest: Digest,
    pub cache_plan: CachePlan,
    /// The lifetime root first, then the project root; none where there is none.
    pub memory_roots: Vec<Digest>,
    pub lowered: Vec<Message>,
}

pub struct ProjectionStateView {
    pub projection_digest: Seq<char>,
    pub cache_plan: CachePlanView,
    pub memory_roots: Seq<Seq<char>>,
    pub lowered: Seq<MessageView>,
}

impl View for ProjectionState {
    type V = ProjectionStateView;

    open spec fn view(&self) -> ProjectionStateView {
        ProjectionStateView {
            projection_digest: self.projection_digest@,
            cache_plan: self.cache_plan@,
            memory_roots: value::views(self.memory_roots@),
            lowered: value::views(self.lowered@),
        }
    }
}

impl Value for ProjectionState {
    fn copy(&self) -> (r: Self) {
        ProjectionState {
            projection_digest: self.projection_digest.copy(),
            cache_plan: self.cache_plan.copy(),
            memory_roots: value::copy_vec(&self.memory_roots),
            lowered: value::copy_vec(&self.lowered),
        }
    }

    fn same(&self, other: &Self) -> (r: bool) {
        self.projection_digest.same(&other.projection_digest)
            && self.cache_plan.same(&other.cache_plan)
            && value::same_vec(&self.memory_roots, &other.memory_roots)
            && value::same_vec(&self.lowered, &other.lowered)
    }
}

/// Reasoning artifacts with the provider that emitted them.
#[derive(Debug, Clone, PartialEq, Eq)]
pub struct Opaque {
    pub provider: String,
    pub artifacts: String,
}

pub struct OpaqueView {
    pub provider: Seq<char>,
    pub artifacts: Seq<char>,
}

impl View for Opaque {
    type V = OpaqueView;

    open spec fn view(&self) -> OpaqueView {
        OpaqueView {
            provider: self.provider@,
            artifacts: self.artifacts@,
        }
    }
}

impl Value for Opaque {
    fn copy(&self) -> (r: Self) {
        Opaque {
            provider: self.provider.copy(),
            artifacts: self.artifacts.copy(),
        }
    }

    fn same(&self, other: &Self) -> (r: bool) {
        self.provider.same(&other.provider)
            && self.artifacts.same(&other.artifacts)
    }
}

/// What the last call pinned.
#[derive(Debug, Clone, PartialEq, Eq)]
pub struct CachePins {
    pub prefix: Option<Digest>,
    pub roots: Vec<Digest>,
}

pub struct CachePinsView {
    pub prefix: Option<Seq<char>>,
    pub roots: Seq<Seq<char>>,
}

impl View for CachePins {
    type V = CachePinsView;

    open spec fn view(&self) -> CachePinsView {
        CachePinsView {
            prefix: value::opt_view(self.prefix),
            roots: value::views(self.roots@),
        }
    }
}

impl Value for CachePins {
    fn copy(&self) -> (r: Self) {
        CachePins {
            prefix: value::copy_opt(&self.prefix),
            roots: value::copy_vec(&self.roots),
        }
    }

    fn same(&self, other: &Self) -> (r: bool) {
        value::same_opt(&self.prefix, &other.prefix)
            && value::same_vec(&self.roots, &other.roots)
    }
}

/// What a session keeps between model calls.
#[derive(Debug, Clone, PartialEq, Eq)]
pub struct ModelState {
    pub last_provider: Option<String>,
    pub last_opaque: Option<Opaque>,
    pub last_cache: Option<CachePins>,
}

pub struct ModelStateView {
    pub last_provider: Option<Seq<char>>,
    pub last_opaque: Option<OpaqueView>,
    pub last_cache: Option<CachePinsView>,
}

impl View for ModelState {
    type V = ModelStateView;

    open spec fn view(&self) -> ModelStateView {
        ModelStateView {
            last_provider: value::opt_view(self.last_provider),
            last_opaque: value::opt_view(self.last_opaque),
            last_cache: value::opt_view(self.last_cache),
        }
    }
}

/// A call as it is committed before it is made.
#[derive(Debug, Clone, PartialEq, Eq)]
pub struct ModelCall {
    pub provider: String,
    pub model: String,
    pub projection_hashes: Vec<Digest>,
    pub module_hashes: Vec<Digest>,
    pub selected_events: Vec<u64>,
    pub rendered_hash: Digest,
    pub params: Json,
    pub cache_plan: CachePlan,
    pub cache_outcome: CacheOutcome,
    pub memory_roots: Vec<Digest>,
    pub input_tokens: u64,
    pub output_tokens: u64,
    pub finish_reason: String,
}

pub struct ModelCallView {
    pub provider: Seq<char>,
    pub model: Seq<char>,
    pub projection_hashes: Seq<Seq<char>>,
    pub module_hashes: Seq<Seq<char>>,
    pub selected_events: Seq<u64>,
    pub rendered_hash: Seq<char>,
    pub params: JsonView,
    pub cache_plan: CachePlanView,
    pub cache_outcome: CacheOutcomeView,
    pub memory_roots: Seq<Seq<char>>,
    pub input_tokens: u64,
    pub output_tokens: u64,
    pub finish_reason: Seq<char>,
}

impl View for ModelCall {
    type V = ModelCallView;

    open spec fn view(&self) -> ModelCallView {
        ModelCallView {
            provider: self.provider@,
            model: self.model@,
            projection_hashes: value::views(self.projection_hashes@),
            module_hashes: value::views(self.module_hashes@),
            selected_events: self.selected_events@,
            rendered_hash: self.rendered_hash@,
            params: self.params@,
            cache_plan: self.cache_plan@,
            cache_outcome: self.cache_outcome@,
            memory_roots: value::views(self.memory_roots@),
            input_tokens: self.input_tokens,
            output_tokens: self.output_tokens,
            finish_reason: self.finish_reason@,
        }
    }
}

/// What left the session with a call.
#[derive(Debug, Clone, PartialEq, Eq)]
pub struct Egress {
    pub provider: String,
    pub sensitivity_classes: Vec<String>,
    pub origin_snapshot: Option<Digest>,
    pub input_tokens: u64,
    pub output_tokens: u64,
}

pub struct EgressView {
    pub provider: Seq<char>,
    pub sensitivity_classes: Seq<Seq<char>>,
    pub origin_snapshot: Option<Seq<char>>,
    pub input_tokens: u64,
    pub output_tokens: u64,
}

impl View for Egress {
    type V = EgressView;

    open spec fn view(&self) -> EgressView {
        EgressView {
            provider: self.provider@,
            sensitivity_classes: value::views(self.sensitivity_classes@),
            origin_snapshot: value::opt_view(self.origin_snapshot),
            input_tokens: self.input_tokens,
            output_tokens: self.output_tokens,
        }
    }
}

/// A reply as it is committed.
#[derive(Debug, Clone, PartialEq, Eq)]
pub struct ModelOutcome {
    pub provider: String,
    pub model: String,
    pub rendered_hash: Digest,
    pub result: Json,
    pub cache_outcome: CacheOutcome,
    pub continuity: Continuity,
    pub opaque_artifacts: Option<String>,
    pub discontinuity: Option<String>,
    pub egress: Egress,
}

pub struct ModelOutcomeView {
    pub provider: Seq<char>,
    pub model: Seq<char>,
    pub rendered_hash: Seq<char>,
    pub result: JsonView,
    pub cache_outcome: CacheOutcomeView,
    pub continuity: ContinuityView,
    pub opaque_artifacts: Option<Seq<char>>,
    pub discontinuity: Option<Seq<char>>,
    pub egress: EgressView,
}

impl View for ModelOutcome {
    type V = ModelOutcomeView;

    open spec fn view(&self) -> ModelOutcomeView {
        ModelOutcomeView {
            provider: self.provider@,
            model: self.model@,
            rendered_hash: self.rendered_hash@,
            result: self.result@,
            cache_outcome: self.cache_outcome@,
            continuity: self.continuity@,
            opaque_artifacts: value::opt_view(self.opaque_artifacts),
            discontinuity: value::opt_view(self.discontinuity),
            egress: self.egress@,
        }
    }
}

/// What a provider replied.
#[derive(Debug, Clone, PartialEq, Eq)]
pub struct Response {
    pub content: Json,
    pub tool_calls: Json,
    pub finish_reason: Json,
    pub usage: Json,
    pub input_tokens: u64,
    pub output_tokens: u64,
    /// Reasoning artifacts, byte for byte.
    pub opaque_artifacts: Option<String>,
    /// The model's own word that its reasoning does not follow.
    pub discontinuity: Option<String>,
}

pub struct ResponseView {
    pub content: JsonView,
    pub tool_calls: JsonView,
    pub finish_reason: JsonView,
    pub usage: JsonView,
    pub input_tokens: u64,
    pub output_tokens: u64,
    pub opaque_artifacts: Option<Seq<char>>,
    pub discontinuity: Option<Seq<char>>,
}

impl View for Response {
    type V = ResponseView;

    open spec fn view(&self) -> ResponseView {
        ResponseView {
            content: self.content@,
            tool_calls: self.tool_calls@,
            finish_reason: self.finish_reason@,
            usage: self.usage@,
            input_tokens: self.input_tokens,
            output_tokens: self.output_tokens,
            opaque_artifacts: value::opt_view(self.opaque_artifacts),
            discontinuity: value::opt_view(self.discontinuity),
        }
    }
}

/// A committed call that awaits its reply, with what the request carries.
#[derive(Debug, Clone, PartialEq, Eq)]
pub struct OpenCall {
    pub provider: String,
    pub model: String,
    pub rendered_hash: Digest,
    pub origin_snapshot: Option<Digest>,
    pub temperature: Json,
    pub max_tokens: Option<u64>,
    pub opaque_artifacts: Option<String>,
}

pub struct OpenCallView {
    pub provider: Seq<char>,
    pub model: Seq<char>,
    pub rendered_hash: Seq<char>,
    pub origin_snapshot: Option<Seq<char>>,
    pub temperature: JsonView,
    pub max_tokens: Option<u64>,
    pub opaque_artifacts: Option<Seq<char>>,
}

impl View for OpenCall {
    type V = OpenCallView;

    open spec fn view(&self) -> OpenCallView {
        OpenCallView {
            provider: self.provider@,
            model: self.model@,
            rendered_hash: self.rendered_hash@,
            origin_snapshot: value::opt_view(self.origin_snapshot),
            temperature: self.temperature@,
            max_tokens: self.max_tokens,
            opaque_artifacts: value::opt_view(self.opaque_artifacts),
        }
    }
}

// ---------- the request ----------

/// The provider's name, or `unknown` where none is configured.
pub open spec fn provider_name(config: Option<ProviderConfigView>) -> Seq<char> {
    match config {
        Some(c) => c.provider,
        None => "unknown"@,
    }
}

pub open spec fn model_name(config: Option<ProviderConfigView>) -> Seq<char> {
    match config {
        Some(c) => c.model,
        None => "unknown"@,
    }
}

/// The sampling parameters as they are committed.
pub open spec fn params(config: Option<ProviderConfigView>) -> JsonView {
    match config {
        Some(c) => JsonView::Object(
            json::fields2(
                json::fv("temperature"@, c.temperature),
                json::fv("max_tokens"@, json::number_or_null(c.max_tokens)),
            ),
        ),
        None => JsonView::Object(Seq::empty()),
    }
}

/// The artifacts that a call to `provider` carries: only those that the same
/// provider emitted.
pub open spec fn replayed(state: ModelStateView, provider: Seq<char>) -> Option<Seq<char>> {
    match state.last_opaque {
        Some(o) => if o.provider == provider {
            Some(o.artifacts)
        } else {
            None
        },
        None => None,
    }
}

pub open spec fn planned(projection: Option<ProjectionStateView>) -> CachePlanView {
    match projection {
        Some(p) => p.cache_plan,
        None => CachePlanView::Uncached,
    }
}

pub open spec fn pinned_by(projection: Option<ProjectionStateView>) -> Seq<Seq<char>> {
    match projection {
        Some(p) => p.memory_roots,
        None => Seq::empty(),
    }
}

/// The record of a call.
pub open spec fn call_record(
    config: Option<ProviderConfigView>,
    projection: Option<ProjectionStateView>,
    selected: Seq<u64>,
    rendered_hash: Seq<char>,
) -> ModelCallView {
    ModelCallView {
        provider: provider_name(config),
        model: model_name(config),
        projection_hashes: match projection {
            Some(p) => Seq::empty().push(p.projection_digest),
            None => Seq::empty(),
        },
        module_hashes: Seq::empty(),
        selected_events: selected,
        rendered_hash,
        params: params(config),
        cache_plan: planned(projection),
        cache_outcome: CacheOutcomeView::Miss,
        memory_roots: pinned_by(projection),
        input_tokens: 0,
        output_tokens: 0,
        finish_reason: "stop"@,
    }
}

fn params_json(config: &Option<ProviderConfig>) -> (r: Json)
    ensures
        r@ == params(value::opt_view(*config)),
{
    match config {
        Some(c) => {
            let f = json::field(json::no_fields(), "temperature", c.temperature.copy());
            json::record(json::field(f, "max_tokens", json::unsigned_or_null(c.max_tokens)))
        },
        None => json::record(json::no_fields()),
    }
}

impl ModelState {
    /// Nothing called yet.
    pub fn new() -> (r: Self)
        ensures
            r@ == (ModelStateView { last_provider: None, last_opaque: None, last_cache: None }),
    {
        ModelState { last_provider: None, last_opaque: None, last_cache: None }
    }

    /// Opens a call: the event that commits it, and the call that awaits its
    /// reply.
    pub fn open_call(
        &self,
        config: &Option<ProviderConfig>,
        projection: &Option<ProjectionState>,
        selected: Vec<u64>,
        rendered_hash: Digest,
        origin_snapshot: &Option<Digest>,
    ) -> (r: (Event, OpenCall))
        ensures
            r.0@ == (EventView {
                kind: "model_call"@,
                payload: PayloadView::Call(
                    call_record(
                        value::opt_view(*config),
                        value::opt_view(*projection),
                        selected@,
                        rendered_hash@,
                    ),
                ),
                refs: Seq::empty(),
            }),
            r.1@ == (OpenCallView {
                provider: provider_name(value::opt_view(*config)),
                model: model_name(value::opt_view(*config)),
                rendered_hash: rendered_hash@,
                origin_snapshot: value::opt_view(*origin_snapshot),
                temperature: match value::opt_view(*config) {
                    Some(c) => c.temperature,
                    None => JsonView::Null,
                },
                max_tokens: match value::opt_view(*config) {
                    Some(c) => c.max_tokens,
                    None => None,
                },
                opaque_artifacts: replayed(self@, provider_name(value::opt_view(*config))),
            }),
    {
        let provider = match config {
            Some(c) => c.provider.clone(),
            None => "unknown".to_owned(),
        };
        let model = match config {
            Some(c) => c.model.clone(),
            None => "unknown".to_owned(),
        };
        let mut projection_hashes: Vec<Digest> = Vec::new();
        let mut memory_roots: Vec<Digest> = Vec::new();
        let mut cache_plan = CachePlan::Uncached;
        if let Some(p) = projection {
            projection_hashes.push(p.projection_digest.copy());
            memory_roots = value::copy_vec(&p.memory_roots);
            cache_plan = p.cache_plan.copy();
        }
        let record = ModelCall {
            provider: provider.clone(),
            model: model.clone(),
            projection_hashes,
            module_hashes: Vec::new(),
            selected_events: selected,
            rendered_hash: rendered_hash.copy(),
            params: params_json(config),
            cache_plan,
            cache_outcome: CacheOutcome::Miss,
            memory_roots,
            input_tokens: 0,
            output_tokens: 0,
            finish_reason: "stop".to_owned(),
        };
        let opaque_artifacts = match &self.last_opaque {
            Some(o) => if o.provider.same(&provider) {
                Some(o.artifacts.clone())
            } else {
                None
            },
            None => None,
        };
        let call = OpenCall {
            provider,
            model,
            rendered_hash,
            origin_snapshot: value::copy_opt(origin_snapshot),
            temperature: match config {
                Some(c) => c.temperature.copy(),
                None => Json::Null,
            },
            max_tokens: match config {
                Some(c) => c.max_tokens,
                None => None,
            },
            opaque_artifacts,
        };
        (event::plain_event("model_call", Payload::Call(record)), call)
    }
}

// ---------- the reply ----------

/// The present roots, the lifetime root first: those that a projection is
/// pinned to, or else the heads.
pub open spec fn live_roots(
    pinned: Option<PinnedRootsView>,
    lifetime: Option<Seq<char>>,
    project: Option<Seq<char>>,
) -> Seq<Seq<char>> {
    match pinned {
        Some(p) => flattened(Some(p.lifetime), p.project),
        None => flattened(lifetime, project),
    }
}

/// The values that are there, in order.
pub open spec fn flattened(a: Option<Seq<char>>, b: Option<Seq<char>>) -> Seq<Seq<char>> {
    let first = match a {
        Some(x) => Seq::empty().push(x),
        None => Seq::<Seq<char>>::empty(),
    };
    match b {
        Some(y) => first.push(y),
        None => first,
    }
}

/// The roots that are there, in order.
pub fn flatten(a: &Option<Digest>, b: &Option<Digest>) -> (r: Vec<Digest>)
    ensures
        value::views(r@) == flattened(value::opt_view(*a), value::opt_view(*b)),
{
    let mut r: Vec<Digest> = Vec::new();
    if let Some(x) = a {
        r.push(x.copy());
    }
    if let Some(y) = b {
        r.push(y.copy());
    }
    r
}

/// The provider served the cached prefix only if the plan is that of the last
/// call and the roots are still those that it pinned. A changed root
/// invalidates the prefix even under the same plan.
pub open spec fn cache_outcome(
    projection: Option<ProjectionStateView>,
    last: Option<CachePinsView>,
    live: Seq<Seq<char>>,
) -> CacheOutcomeView {
    match (planned(projection), last) {
        (CachePlanView::StablePrefix { digest }, Some(pins)) => if pins.prefix == Some(digest) {
            if live == pins.roots {
                CacheOutcomeView::Hit
            } else {
                CacheOutcomeView::Invalidated { reason: "memory root changed"@ }
            }
        } else {
            CacheOutcomeView::Miss
        },
        _ => CacheOutcomeView::Miss,
    }
}

/// The model's own flag breaks continuity first; else it holds exactly when
/// the provider is that of the call before.
pub open spec fn continuity(
    state: ModelStateView,
    provider: Seq<char>,
    at_event: u64,
    flag: Option<Seq<char>>,
) -> ContinuityView {
    match flag {
        Some(reason) => ContinuityView::Broken {
            from_provider: provider,
            at_event,
            reason: Some(reason),
        },
        None => if state.last_provider == Some(provider) {
            ContinuityView::Continuous
        } else {
            ContinuityView::Broken {
                from_provider: match state.last_provider {
                    Some(p) => p,
                    None => "none"@,
                },
                at_event,
                reason: None,
            }
        },
    }
}

/// What the caller of the model sees.
pub open spec fn call_result(response: ResponseView) -> JsonView {
    JsonView::Object(
        json::fields4(
            json::fv("content"@, response.content),
            json::fv("tool_calls"@, response.tool_calls),
            json::fv("finish_reason"@, response.finish_reason),
            json::fv("usage"@, response.usage),
        ),
    )
}

/// The record of a reply. It repeats the digest of what was rendered.
pub open spec fn outcome_record(
    state: ModelStateView,
    call: OpenCallView,
    projection: Option<ProjectionStateView>,
    live: Seq<Seq<char>>,
    next_seq: u64,
    response: ResponseView,
) -> ModelOutcomeView {
    ModelOutcomeView {
        provider: call.provider,
        model: call.model,
        rendered_hash: call.rendered_hash,
        result: call_result(response),
        cache_outcome: cache_outcome(projection, state.last_cache, live),
        continuity: continuity(state, call.provider, next_seq, response.discontinuity),
        opaque_artifacts: response.opaque_artifacts,
        discontinuity: response.discontinuity,
        egress: EgressView {
            provider: call.provider,
            sensitivity_classes: Seq::empty().push("call"@),
            origin_snapshot: call.origin_snapshot,
            input_tokens: response.input_tokens,
            output_tokens: response.output_tokens,
        },
    }
}

/// What the session keeps for the next call.
pub open spec fn after_reply(
    state: ModelStateView,
    provider: Seq<char>,
    projection: Option<ProjectionStateView>,
    artifacts: Option<Seq<char>>,
) -> ModelStateView {
    ModelStateView {
        last_provider: Some(provider),
        last_opaque: match artifacts {
            Some(a) => Some(OpaqueView { provider, artifacts: a }),
            None => state.last_opaque,
        },
        last_cache: Some(
            CachePinsView {
                prefix: match planned(projection) {
                    CachePlanView::StablePrefix { digest } => Some(digest),
                    CachePlanView::Uncached => None,
                },
                roots: pinned_by(projection),
            },
        ),
    }
}

fn decide_cache(
    projection: &Option<ProjectionState>,
    last: &Option<CachePins>,
    live: &Vec<Digest>,
) -> (r: CacheOutcome)
    ensures
        r@ == cache_outcome(
            value::opt_view(*projection),
            value::opt_view(*last),
            value::views(live@),
        ),
{
    match (projection, last) {
        (Some(p), Some(pins)) => match (&p.cache_plan, &pins.prefix) {
            (CachePlan::StablePrefix { digest }, Some(prev)) => if prev.same(digest) {
                if value::same_vec(live, &pins.roots) {
                    CacheOutcome::Hit
                } else {
                    CacheOutcome::Invalidated { reason: "memory root changed".to_owned() }
                }
            } else {
                CacheOutcome::Miss
            },
            _ => CacheOutcome::Miss,
        },
        _ => CacheOutcome::Miss,
    }
}

fn decide_continuity(
    last: &Option<String>,
    provider: &String,
    at_event: u64,
    flag: &Option<String>,
) -> (r: Continuity)
    ensures
        forall|state: ModelStateView|
            state.last_provider == value::opt_view(*last) ==> r@ == #[trigger] continuity(
                state,
                provider@,
                at_event,
                value::opt_view(*flag),
            ),
{
    match flag {
        Some(reason) => Continuity::Broken {
            from_provider: provider.clone(),
            at_event,
            reason: Some(reason.clone()),
        },
        None => match last {
            Some(p) => if p.same(provider) {
                Continuity::Continuous
            } else {
                Continuity::Broken { from_provider: p.clone(), at_event, reason: None }
            },
            None => Continuity::Broken {
                from_provider: "none".to_owned(),
                at_event,
                reason: None,
            },
        },
    }
}

/// A finished call: the event that commits the reply, what the caller sees,
/// and the tokens that the run is charged.
#[derive(Debug, Clone, PartialEq, Eq)]
pub struct FinishedCall {
    pub event: Event,
    pub result: Json,
    pub tokens: u64,
}

fn result_json(response: &Response) -> (r: Json)
    ensures
        r@ == call_result(response@),
{
    let f = json::field(json::no_fields(), "content", response.content.copy());
    let f = json::field(f, "tool_calls", response.tool_calls.copy());
    let f = json::field(f, "finish_reason", response.finish_reason.copy());
    json::record(json::field(f, "usage", response.usage.copy()))
}

impl ModelState {
    /// Takes the reply to an open call. `next_seq` is the seq that the outcome
    /// will be committed at.
    pub fn close_call(
        &mut self,
        call: &OpenCall,
        projection: &Option<ProjectionState>,
        pinned: &Option<PinnedRoots>,
        lifetime: &Option<Digest>,
        project: &Option<Digest>,
        next_seq: u64,
        response: Response,
    ) -> (r: FinishedCall)
        requires
            response.input_tokens + response.output_tokens <= u64::MAX,
        ensures
            r.event@ == (EventView {
                kind: "model_outcome"@,
                payload: PayloadView::Reply(
                    outcome_record(
                        old(self)@,
                        call@,
                        value::opt_view(*projection),
                        live_roots(
                            value::opt_view(*pinned),
                            value::opt_view(*lifetime),
                            value::opt_view(*project),
                        ),
                        next_seq,
                        response@,
                    ),
                ),
                refs: Seq::empty(),
            }),
            r.result@ == call_result(response@),
            r.tokens == response.input_tokens + response.output_tokens,
            final(self)@ == after_reply(
                old(self)@,
                call@.provider,
                value::opt_view(*projection),
                value::opt_view(response.opaque_artifacts),
            ),
    {
        let live = match pinned {
            Some(p) => flatten(&Some(p.lifetime.copy()), &p.project),
            None => flatten(lifetime, project),
        };
        let cache = decide_cache(projection, &self.last_cache, &live);
        let follows = decide_continuity(
            &self.last_provider,
            &call.provider,
            next_seq,
            &response.discontinuity,
        );
        let result = result_json(&response);
        let mut classes: Vec<String> = Vec::new();
        classes.push("call".to_owned());
        let egress = Egress {
            provider: call.provider.clone(),
            sensitivity_classes: classes,
            origin_snapshot: value::copy_opt(&call.origin_snapshot),
            input_tokens: response.input_tokens,
            output_tokens: response.output_tokens,
        };
        let record = ModelOutcome {
            provider: call.provider.clone(),
            model: call.model.clone(),
            rendered_hash: call.rendered_hash.copy(),
            result: result.copy(),
            cache_outcome: cache,
            continuity: follows,
            opaque_artifacts: value::copy_opt(&response.opaque_artifacts),
            discontinuity: value::copy_opt(&response.discontinuity),
            egress,
        };
        let tokens: u64 = response.input_tokens + response.output_tokens;
        let mut prefix: Option<Digest> = None;
        let mut roots: Vec<Digest> = Vec::new();
        if let Some(p) = projection {
            if let CachePlan::StablePrefix { digest } = &p.cache_plan {
                prefix = Some(digest.copy());
            }
            roots = value::copy_vec(&p.memory_roots);
        }
        self.last_cache = Some(CachePins { prefix, roots });
        if let Some(artifacts) = &response.opaque_artifacts {
            self.last_opaque = Some(
                Opaque { provider: call.provider.clone(), artifacts: artifacts.clone() },
            );
        }
        self.last_provider = Some(call.provider.clone());
        FinishedCall {
            event: event::plain_event("model_outcome", Payload::Reply(record)),
            result,
            tokens,
        }
    }
}

/// Checks that there is a provider to call; the intent of the call is
/// committed by then.
pub fn check_provider(configured: bool) -> (r: Result<(), SessionError>)
    ensures
        value::failure(r) == if configured {
            None
        } else {
            Some(SessionErrorView::InvalidInput("no provider configured"@))
        },
{
    if configured {
        Ok(())
    } else {
        Err(SessionError::InvalidInput("no provider configured".to_owned()))
    }
}

/// Why a stream ended without a reply.
#[derive(Debug, Clone, PartialEq, Eq)]
pub enum StreamError {
    Cancelled,
    Other(String),
}

/// The session error of a stream that failed: a cancel stays a cancel, and
/// nothing else becomes one.
pub fn stream_failure(e: StreamError) -> (r: SessionError)
    ensures
        r@ == match e {
            StreamError::Cancelled => SessionErrorView::Cancelled,
            StreamError::Other(t) => SessionErrorView::Provider(t@),
        },
{
    match e {
        StreamError::Cancelled => SessionError::Cancelled,
        StreamError::Other(t) => SessionError::Provider(t),
    }
}

// ---------- laws ----------

/// Artifacts are replayed to no provider but the one that emitted them,
/// however many calls lie between.
pub proof fn law_artifacts_stay_with_their_provider(
    state: ModelStateView,
    emitter: Seq<char>,
    other: Seq<char>,
    projection: Option<ProjectionStateView>,
    artifacts: Seq<char>,
)
    requires
        emitter != other,
    ensures
        ({
            let emitted = after_reply(state, emitter, projection, Some(artifacts));
            let later = after_reply(emitted, other, projection, None);
            &&& replayed(emitted, emitter) == Some(artifacts)
            &&& replayed(emitted, other) is None
            &&& replayed(later, emitter) == Some(artifacts)
            &&& replayed(later, other) is None
        }),
{
}

/// The call after a reply is continuous for the same provider and broken for
/// any other, unless the model says otherwise.
pub proof fn law_continuity_follows_the_provider(
    state: ModelStateView,
    provider: Seq<char>,
    next: Seq<char>,
    projection: Option<ProjectionStateView>,
    artifacts: Option<Seq<char>>,
    at_event: u64,
)
    ensures
        ({
            let then = after_reply(state, provider, projection, artifacts);
            continuity(then, next, at_event, None) == if next == provider {
                ContinuityView::Continuous
            } else {
                ContinuityView::Broken { from_provider: provider, at_event, reason: None }
            }
        }),
{
}

/// Two calls under the same projection: the second hits the cache exactly if
/// there is a prefix and the roots are still the pinned ones.
pub proof fn law_cache_hit_needs_the_pinned_roots(
    state: ModelStateView,
    provider: Seq<char>,
    projection: Option<ProjectionStateView>,
    artifacts: Option<Seq<char>>,
    live: Seq<Seq<char>>,
)
    ensures
        ({
            let then = after_reply(state, provider, projection, artifacts);
            cache_outcome(projection, then.last_cache, live) is Hit <==> planned(
                projection,
            ) is StablePrefix && live == pinned_by(projection)
        }),
{
}

/// A call is recorded with the configured provider and model, the projection that
/// it was made from, its cache plan and its memory roots, the events selected and
/// the digest of what was rendered.
pub proof fn law_calls_record_what_they_send(
    config: Option<ProviderConfigView>,
    projection: Option<ProjectionStateView>,
    selected: Seq<u64>,
    rendered_hash: Seq<char>,
)
    ensures
        ({
            let c = call_record(config, projection, selected, rendered_hash);
            &&& config matches Some(x) ==> c.provider == x.provider && c.model == x.model
            &&& config is None ==> c.provider == "unknown"@ && c.model == "unknown"@
            &&& c.selected_events == selected
            &&& c.rendered_hash == rendered_hash
            &&& projection matches Some(p) ==> c.projection_hashes == seq![p.projection_digest]
                && c.cache_plan == p.cache_plan && c.memory_roots == p.memory_roots
            &&& projection is None ==> c.projection_hashes.len() == 0 && c.memory_roots.len() == 0
                && c.cache_plan is Uncached
            &&& c.input_tokens == 0 && c.output_tokens == 0
        }),
{
    if projection is Some {
        assert(call_record(config, projection, selected, rendered_hash).projection_hashes =~= seq![
            projection->0.projection_digest,
        ]);
    }
}

/// The live roots are the pinned ones, or the heads: the lifetime root first, the
/// project's behind it, each where it is there.
pub proof fn law_live_roots_are_pinned_or_heads(
    p: PinnedRootsView,
    lifetime: Option<Seq<char>>,
    project: Option<Seq<char>>,
)
    ensures
        live_roots(Some(p), lifetime, project) == flattened(Some(p.lifetime), p.project),
        live_roots(None, lifetime, project) == flattened(lifetime, project),
        ({
            let r = flattened(lifetime, project);
            let n: int = if lifetime is Some { 1 } else { 0 };
            &&& r.len() == if project is Some { n + 1 } else { n }
            &&& lifetime matches Some(x) ==> r[0] == x
            &&& project matches Some(y) ==> r[n] == y
        }),
{
}

/// The cache is hit exactly if the plan has a prefix, the call before it had the
/// same, and the roots are still those that it pinned. Changed roots invalidate
/// the same prefix; anything else misses.
pub proof fn law_cache_outcomes_are_exact(
    projection: Option<ProjectionStateView>,
    last: Option<CachePinsView>,
    live: Seq<Seq<char>>,
)
    ensures
        ({
            let same = projection matches Some(p) && p.cache_plan matches CachePlanView::StablePrefix {
                digest,
            } && last matches Some(pins) && pins.prefix == Some(digest);
            &&& cache_outcome(projection, last, live) is Hit <==> same && live == last->0.roots
            &&& cache_outcome(projection, last, live) is Invalidated <==> same && live
                != last->0.roots
            &&& cache_outcome(projection, last, live) is Miss <==> !same
        }),
{
}

/// A reply is recorded for the call it answers, with what the model gave, and the
/// tokens that left with it. What the model says of a break counts before
/// anything else.
pub proof fn law_replies_are_recorded_for_their_call(
    state: ModelStateView,
    call: OpenCallView,
    projection: Option<ProjectionStateView>,
    live: Seq<Seq<char>>,
    next_seq: u64,
    response: ResponseView,
)
    ensures
        ({
            let o = outcome_record(state, call, projection, live, next_seq, response);
            &&& o.provider == call.provider
            &&& o.model == call.model
            &&& o.rendered_hash == call.rendered_hash
            &&& o.result == call_result(response)
            &&& o.opaque_artifacts == response.opaque_artifacts
            &&& o.discontinuity == response.discontinuity
            &&& o.egress.provider == call.provider
            &&& o.egress.origin_snapshot == call.origin_snapshot
            &&& o.egress.input_tokens == response.input_tokens
            &&& o.egress.output_tokens == response.output_tokens
            &&& o.cache_outcome == cache_outcome(projection, state.last_cache, live)
            &&& response.discontinuity matches Some(why) ==> o.continuity == (
            ContinuityView::Broken {
                from_provider: call.provider,
                at_event: next_seq,
                reason: Some(why),
            })
            &&& response.discontinuity is None ==> (o.continuity is Continuous
                <==> state.last_provider == Some(call.provider))
            &&& json::member(o.result, "content"@) == Some(response.content)
        }),
{
    reveal_strlit("content");
}

/// What is kept for the next call: the provider, its artifacts where it emitted
/// any, and the prefix and roots that the projection pinned.
pub proof fn law_replies_are_remembered(
    state: ModelStateView,
    provider: Seq<char>,
    projection: Option<ProjectionStateView>,
    artifacts: Option<Seq<char>>,
)
    ensures
        ({
            let s = after_reply(state, provider, projection, artifacts);
            &&& s.last_provider == Some(provider)
            &&& artifacts is None ==> s.last_opaque == state.last_opaque
            &&& artifacts matches Some(a) ==> (s.last_opaque matches Some(o) && o.provider
                == provider && o.artifacts == a)
            &&& s.last_cache matches Some(c) && {
                &&& projection is None ==> c.prefix is None && c.roots.len() == 0
                &&& projection matches Some(p) ==> c.roots == p.memory_roots
                &&& projection matches Some(p) ==> (
                p.cache_plan matches CachePlanView::StablePrefix { digest } ==> c.prefix == Some(
                    digest,
                ))
                &&& projection matches Some(p) ==> (p.cache_plan is Uncached ==> c.prefix is None)
            }
        }),
{
}

} // verus!
