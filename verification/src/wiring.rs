//! Desired-state settings: how the merged settings of the config layers become
//! the wiring of a running session.
use vstd::prelude::*;
use crate::contribution::SettingsContribution;
use crate::ids::Id128;
use crate::model::ProviderConfig;

verus! {

/// The wiring that a source resolves settings to: a provider engine `E`, a
/// broker `B` and an approval resolver `R`, which the host builds.
pub struct SessionSettings<E, B, R> {
    /// Without one, the session stores and calls no model.
    pub provider_engine: Option<E>,
    pub provider: Option<ProviderConfig>,
    /// Without one, the default broker denies everything.
    pub broker: Option<B>,
    /// Without one, every gated intent is parked.
    pub approval_resolver: Option<R>,
    /// Without one, the session keeps its identity.
    pub session_id: Option<Id128>,
}

/// The wiring of a running session.
pub struct Wiring<E, B, R> {
    pub provider_engine: Option<E>,
    pub provider: Option<ProviderConfig>,
    pub broker: Option<B>,
    pub approval_resolver: Option<R>,
    pub session_id: Id128,
}

/// The host's mapping from settings to wiring. The session does not interpret
/// settings itself.
pub trait SettingsSource<E, B, R> {
    fn resolve(&self, settings: &SettingsContribution) -> SessionSettings<E, B, R>;
}

/// The wiring under resolved settings. They determine it fully: a field that a
/// higher layer clears is uninstalled. Only the identity is kept where the
/// settings name none.
pub open spec fn wired<E, B, R>(
    w: Wiring<E, B, R>,
    s: SessionSettings<E, B, R>,
) -> Wiring<E, B, R> {
    Wiring {
        provider_engine: s.provider_engine,
        provider: s.provider,
        broker: s.broker,
        approval_resolver: s.approval_resolver,
        session_id: match s.session_id {
            Some(id) => id,
            None => w.session_id,
        },
    }
}

/// Wires a session as resolved settings say.
pub fn wire<E, B, R>(w: Wiring<E, B, R>, s: SessionSettings<E, B, R>) -> (r: Wiring<E, B, R>)
    ensures
        r == wired(w, s),
{
    Wiring {
        provider_engine: s.provider_engine,
        provider: s.provider,
        broker: s.broker,
        approval_resolver: s.approval_resolver,
        session_id: match s.session_id {
            Some(id) => id,
            None => w.session_id,
        },
    }
}

/// Resolves the merged settings through the source, if there is one, and wires
/// the session accordingly.
pub fn apply_settings<E, B, R, S: SettingsSource<E, B, R>>(
    w: Wiring<E, B, R>,
    source: &Option<S>,
    settings: &SettingsContribution,
) -> (r: Wiring<E, B, R>)
    ensures
        match *source {
            None => r == w,
            Some(src) => exists|s: SessionSettings<E, B, R>| #[trigger]
                call_ensures(S::resolve, (&src, settings), s) && r == wired(w, s),
        },
{
    match source {
        None => w,
        Some(src) => {
            let s = src.resolve(settings);
            assert(call_ensures(S::resolve, (src, settings), s));
            wire(w, s)
        },
    }
}

// ---------- laws ----------

/// Applying the same settings again changes nothing.
pub proof fn law_wiring_is_idempotent<E, B, R>(
    w: Wiring<E, B, R>,
    s: SessionSettings<E, B, R>,
)
    ensures
        wired(wired(w, s), s) == wired(w, s),
{
}

/// Earlier wiring leaves no trace but the identity.
pub proof fn law_wiring_forgets_the_past<E, B, R>(
    a: Wiring<E, B, R>,
    b: Wiring<E, B, R>,
    s: SessionSettings<E, B, R>,
)
    requires
        a.session_id == b.session_id,
    ensures
        wired(a, s) == wired(b, s),
{
}

/// Every part of the resolved settings is wired where it belongs.
pub proof fn law_settings_are_wired_whole<E, B, R>(
    w: Wiring<E, B, R>,
    s: SessionSettings<E, B, R>,
)
    ensures
        wired(w, s).provider_engine == s.provider_engine,
        wired(w, s).provider == s.provider,
        wired(w, s).broker == s.broker,
        wired(w, s).approval_resolver == s.approval_resolver,
        s.session_id is Some ==> wired(w, s).session_id == s.session_id->0,
        s.session_id is None ==> wired(w, s).session_id == w.session_id,
{
}

} // verus!
