//! The fixed rules of the contribution kinds: which slot an entry occupies,
//! what conflicts, and how overlays merge.
use vstd::prelude::*;
use vstd::string::*;
use vstd::utf8::*;
use crate::contribution::{
    ApprovalSettings, Contribution, ContributionKind, ContributionView, HookKind, KeyReference,
    KeyReferenceView, KindView, ProviderSettings, ProviderSettingsView, SettingsContribution,
    SettingsView,
};
use crate::errors::{ScopeError, ScopeErrorView};
use crate::json;
use crate::json::JsonView;
use crate::services;
use crate::services::{
    EntryView, KeyView, ProviderView, ScopePath, ServiceProvider, ServiceRegistry,
};
use crate::text;
use crate::value;
use crate::value::Value;

verus! {

broadcast use value::group_views;

/// The place a contribution takes. Two entries of one slot are the same
/// registration, or layers of it for keymaps and hooks.
pub enum Slot {
    Command { scope: Seq<Seq<char>>, name: Seq<char> },
    Tool { scope: Seq<Seq<char>>, name: Seq<char> },
    Service { key: KeyView },
    Keymap { scope: Seq<Seq<char>>, key: Seq<char> },
    Theme { scope: Seq<Seq<char>>, name: Seq<char> },
    Stage { scope: Seq<Seq<char>>, slot: Seq<char>, ordering: u32 },
    Ui { scope: Seq<Seq<char>>, name: Seq<char> },
    Guard { scope: Seq<Seq<char>>, name: Seq<char> },
    Settings { scope: Seq<Seq<char>> },
    Hook { scope: Seq<Seq<char>>, name: Seq<char>, hook: HookKind },
}

pub open spec fn slot_of(c: ContributionView) -> Slot {
    match c.kind {
        KindView::Command { name, .. } => Slot::Command { scope: c.scope, name },
        KindView::Tool { name, .. } => Slot::Tool { scope: c.scope, name },
        KindView::Service { key, .. } => Slot::Service { key },
        KindView::Keymap { key, .. } => Slot::Keymap { scope: c.scope, key },
        KindView::Theme { name, .. } => Slot::Theme { scope: c.scope, name },
        KindView::ProjectionStage { slot, ordering, .. } => Slot::Stage {
            scope: c.scope,
            slot,
            ordering,
        },
        KindView::UiMount { name, .. } => Slot::Ui { scope: c.scope, name },
        KindView::Guard { name, .. } => Slot::Guard { scope: c.scope, name },
        KindView::Settings(_) => Slot::Settings { scope: c.scope },
        KindView::Hook { name, hook } => Slot::Hook { scope: c.scope, name, hook },
    }
}

/// Whether two contributions take the same slot.
pub fn same_slot(a: &Contribution, b: &Contribution) -> (r: bool)
    ensures
        r == (slot_of(a@) == slot_of(b@)),
{
    match (&a.kind, &b.kind) {
        (ContributionKind::Command(x), ContributionKind::Command(y)) => x.name.same(&y.name)
            && a.scope.same(&b.scope),
        (ContributionKind::Tool(x), ContributionKind::Tool(y)) => x.name.same(&y.name)
            && a.scope.same(&b.scope),
        (ContributionKind::Service(x), ContributionKind::Service(y)) => x.key.same(&y.key),
        (ContributionKind::Keymap(x), ContributionKind::Keymap(y)) => x.key.same(&y.key)
            && a.scope.same(&b.scope),
        (ContributionKind::Theme(x), ContributionKind::Theme(y)) => x.name.same(&y.name)
            && a.scope.same(&b.scope),
        (ContributionKind::ProjectionStage(x), ContributionKind::ProjectionStage(y)) => x.ordering
            == y.ordering && x.slot.same(&y.slot) && a.scope.same(&b.scope),
        (ContributionKind::UiMount(x), ContributionKind::UiMount(y)) => x.name.same(&y.name)
            && a.scope.same(&b.scope),
        (ContributionKind::Guard(x), ContributionKind::Guard(y)) => x.name.same(&y.name)
            && a.scope.same(&b.scope),
        (ContributionKind::Settings(_), ContributionKind::Settings(_)) => a.scope.same(&b.scope),
        (ContributionKind::Hook(x), ContributionKind::Hook(y)) => x.hook == y.hook && x.name.same(
            &y.name,
        ) && a.scope.same(&b.scope),
        _ => false,
    }
}

/// The position of the last entry in a slot; -1 when it is free.
pub open spec fn last_place(s: Seq<ContributionView>, slot: Slot) -> int
    decreases s.len(),
{
    if s.len() == 0 {
        -1
    } else if slot_of(s.last()) == slot {
        s.len() - 1
    } else {
        last_place(s.drop_last(), slot)
    }
}

/// The last entry in a slot.
pub open spec fn latest(s: Seq<ContributionView>, slot: Slot) -> Option<ContributionView> {
    if last_place(s, slot) >= 0 {
        Some(s[last_place(s, slot)])
    } else {
        None
    }
}

pub proof fn lemma_last_place(s: Seq<ContributionView>, slot: Slot)
    ensures
        -1 <= last_place(s, slot) < s.len(),
        last_place(s, slot) >= 0 ==> slot_of(s[last_place(s, slot)]) == slot,
        forall|i: int| last_place(s, slot) < i < s.len() ==> slot_of(#[trigger] s[i]) != slot,
    decreases s.len(),
{
    if s.len() > 0 && slot_of(s.last()) != slot {
        let t = s.drop_last();
        lemma_last_place(t, slot);
        assert forall|i: int| last_place(s, slot) < i < s.len() implies slot_of(#[trigger] s[i])
            != slot by {
            if i < t.len() {
                assert(t[i] == s[i]);
            }
        }
    }
}

/// A position found by looking from the end is the last place.
pub proof fn lemma_is_last_place(s: Seq<ContributionView>, slot: Slot, p: int)
    requires
        -1 <= p < s.len(),
        p >= 0 ==> slot_of(s[p]) == slot,
        forall|i: int| p < i < s.len() ==> slot_of(#[trigger] s[i]) != slot,
    ensures
        last_place(s, slot) == p,
{
    lemma_last_place(s, slot);
    let q = last_place(s, slot);
    if q > p {
        assert(slot_of(s[q]) != slot);
    } else if q < p {
        assert(slot_of(s[p]) != slot);
    }
}

/// The last of the first `n` entries in the slot of `c`.
pub fn find_last(s: &[Contribution], n: usize, c: &Contribution) -> (r: Option<usize>)
    requires
        n <= s@.len(),
    ensures
        match r {
            Some(p) => p < n && last_place(value::views(s@).take(n as int), slot_of(c@)) == p,
            None => last_place(value::views(s@).take(n as int), slot_of(c@)) == -1,
        },
{
    let ghost t = value::views(s@).take(n as int);
    let mut i: usize = n;
    while i > 0
        invariant
            i <= n <= s@.len(),
            t == value::views(s@).take(n as int),
            forall|k: int| i <= k < n ==> slot_of(#[trigger] t[k]) != slot_of(c@),
        decreases i,
    {
        assert(t[i - 1] == s@[i - 1]@);
        if same_slot(&s[i - 1], c) {
            proof {
                lemma_is_last_place(t, slot_of(c@), i - 1);
            }
            return Some(i - 1);
        }
        i = i - 1;
    }
    proof {
        lemma_is_last_place(t, slot_of(c@), -1);
    }
    None
}

/// The entries outside a slot.
pub open spec fn cleared(s: Seq<ContributionView>, slot: Slot) -> Seq<ContributionView>
    decreases s.len(),
{
    if s.len() == 0 {
        s
    } else if slot_of(s.last()) == slot {
        cleared(s.drop_last(), slot)
    } else {
        cleared(s.drop_last(), slot).push(s.last())
    }
}

/// Drops the entries in the slot of `c`.
pub fn clear_slot(entries: &mut Vec<Contribution>, c: &Contribution)
    ensures
        value::views(final(entries)@) == cleared(value::views(old(entries)@), slot_of(c@)),
{
    let ghost all = value::views(entries@);
    let ghost slot = slot_of(c@);
    let mut i: usize = 0;
    let ghost mut k: int = 0;
    assert(all.take(0) =~= Seq::empty());
    assert(cleared(all.take(0), slot) + all.skip(0) =~= all);
    while i < entries.len()
        invariant
            i <= entries.len(),
            slot == slot_of(c@),
            0 <= k <= all.len(),
            cleared(all.take(k), slot).len() == i,
            value::views(entries@) == cleared(all.take(k), slot) + all.skip(k),
        decreases entries.len() - i,
    {
        proof {
            let v = value::views(entries@);
            assert(v.len() == entries.len());
            assert(v[i as int] == entries@[i as int]@);
            assert(k < all.len());
            assert(v[i as int] == all.skip(k)[0]);
            assert(all.take(k + 1).drop_last() =~= all.take(k));
            assert(all.take(k + 1).last() == all[k]);
        }
        let ghost before = value::views(entries@);
        if same_slot(&entries[i], c) {
            let _ = entries.remove(i);
            proof {
                assert(value::views(entries@) =~= before.remove(i as int));
                assert(before.remove(i as int) =~= cleared(all.take(k + 1), slot) + all.skip(
                    k + 1,
                ));
                k = k + 1;
            }
        } else {
            proof {
                assert(before =~= cleared(all.take(k + 1), slot) + all.skip(k + 1));
                k = k + 1;
            }
            i = i + 1;
        }
    }
    proof {
        assert(all.skip(k).len() == 0);
        assert(all.take(k) =~= all);
        assert(value::views(entries@) =~= cleared(all, slot));
    }
}

/// `c` put into its slot: in the place of the entry there, or at the end.
pub open spec fn put(s: Seq<ContributionView>, c: ContributionView) -> Seq<ContributionView> {
    if last_place(s, slot_of(c)) >= 0 {
        s.update(last_place(s, slot_of(c)), c)
    } else {
        s.push(c)
    }
}

/// Puts a contribution into its slot.
pub fn put_entry(entries: &mut Vec<Contribution>, c: Contribution)
    ensures
        value::views(final(entries)@) == put(value::views(old(entries)@), c@),
{
    let ghost before = value::views(entries@);
    assert(before.take(entries.len() as int) =~= before);
    match find_last(entries.as_slice(), entries.len(), &c) {
        Some(p) => {
            entries.set(p, c);
        },
        None => {
            entries.push(c);
        },
    }
}

/// An element-wise copy.
pub fn copy_entries(s: &[Contribution]) -> (r: Vec<Contribution>)
    ensures
        value::views(r@) == value::views(s@),
{
    let mut out: Vec<Contribution> = Vec::new();
    let mut i: usize = 0;
    while i < s.len()
        invariant
            i <= s@.len(),
            out.len() == i,
            forall|k: int| 0 <= k < i ==> (#[trigger] out@[k])@ == s@[k]@,
        decreases s@.len() - i,
    {
        out.push(s[i].copy());
        i = i + 1;
    }
    assert(value::views(out@) =~= value::views(s@));
    out
}

// ---------- overlays ----------

/// The incoming value where there is one, else the base.
pub open spec fn over<T>(base: Option<T>, incoming: Option<T>) -> Option<T> {
    if incoming is Some {
        incoming
    } else {
        base
    }
}

pub open spec fn provider_over(
    base: Option<ProviderSettingsView>,
    incoming: Option<ProviderSettingsView>,
) -> Option<ProviderSettingsView> {
    match (base, incoming) {
        (Some(b), Some(i)) => Some(
            ProviderSettingsView {
                base_url: over(b.base_url, i.base_url),
                model: over(b.model, i.model),
                protocol: over(b.protocol, i.protocol),
                key: over(b.key, i.key),
                fake: over(b.fake, i.fake),
            },
        ),
        _ => over(base, incoming),
    }
}

pub open spec fn approval_over(
    base: Option<ApprovalSettings>,
    incoming: Option<ApprovalSettings>,
) -> Option<ApprovalSettings> {
    match (base, incoming) {
        (Some(b), Some(i)) => Some(
            ApprovalSettings {
                auto_approve: over(b.auto_approve, i.auto_approve),
                yolo: over(b.yolo, i.yolo),
            },
        ),
        _ => over(base, incoming),
    }
}

/// Settings overlaid field by field: a set field wins, an unset one keeps
/// what is there.
pub open spec fn settings_over(base: SettingsView, incoming: SettingsView) -> SettingsView {
    SettingsView {
        provider: provider_over(base.provider, incoming.provider),
        approval: approval_over(base.approval, incoming.approval),
    }
}

fn copy_over<T: Value>(base: Option<T>, incoming: &Option<T>) -> (r: Option<T>)
    ensures
        value::opt_view(r) == over(value::opt_view(base), value::opt_view(*incoming)),
{
    match incoming {
        Some(t) => Some(t.copy()),
        None => base,
    }
}

fn flag_over(base: Option<bool>, incoming: Option<bool>) -> (r: Option<bool>)
    ensures
        r == over(base, incoming),
{
    match incoming {
        Some(b) => Some(b),
        None => base,
    }
}

/// Overlays the provider settings.
pub fn merge_provider(base: Option<ProviderSettings>, incoming: &Option<ProviderSettings>) -> (r:
    Option<ProviderSettings>)
    ensures
        value::opt_view(r) == provider_over(value::opt_view(base), value::opt_view(*incoming)),
{
    match (base, incoming) {
        (Some(b), Some(i)) => Some(
            ProviderSettings {
                base_url: copy_over(b.base_url, &i.base_url),
                model: copy_over(b.model, &i.model),
                protocol: copy_over(b.protocol, &i.protocol),
                key: copy_over(b.key, &i.key),
                fake: flag_over(b.fake, i.fake),
            },
        ),
        (None, Some(i)) => Some(i.copy()),
        (b, None) => b,
    }
}

/// Overlays the approval settings.
pub fn merge_approval(base: Option<ApprovalSettings>, incoming: &Option<ApprovalSettings>) -> (r:
    Option<ApprovalSettings>)
    ensures
        value::opt_view(r) == approval_over(value::opt_view(base), value::opt_view(*incoming)),
{
    match (base, incoming) {
        (Some(b), Some(i)) => Some(
            ApprovalSettings {
                auto_approve: flag_over(b.auto_approve, i.auto_approve),
                yolo: flag_over(b.yolo, i.yolo),
            },
        ),
        (None, Some(i)) => Some(*i),
        (b, None) => b,
    }
}

/// Overlays settings field by field.
pub fn merge_settings(base: SettingsContribution, incoming: &SettingsContribution) -> (r:
    SettingsContribution)
    ensures
        r@ == settings_over(base@, incoming@),
{
    SettingsContribution {
        provider: merge_provider(base.provider, &incoming.provider),
        approval: merge_approval(base.approval, &incoming.approval),
    }
}

// ---------- structural rules ----------

pub open spec fn slot_char(c: char) -> bool {
    ||| 0x30 <= c as u32 <= 0x39
    ||| 0x41 <= c as u32 <= 0x5a
    ||| 0x61 <= c as u32 <= 0x7a
    ||| c == '-'
    ||| c == '_'
}

/// A UI slot name: ASCII letters, digits, `-` and `_`, at least one and at
/// most 32 bytes.
pub open spec fn slot_name_ok(t: Seq<char>) -> bool {
    &&& 0 < t.len()
    &&& encode_utf8(t).len() <= 32
    &&& forall|i: int| 0 <= i < t.len() ==> slot_char(#[trigger] t[i])
}

pub open spec fn ui_slot_error(
    scope: Seq<Seq<char>>,
    slot: Option<Seq<char>>,
) -> Option<ScopeErrorView> {
    match slot {
        None => None,
        Some(t) => if slot_name_ok(t) {
            None
        } else {
            Some(
                ScopeErrorView::InvalidContribution {
                    scope,
                    reason: "ui mount slot `"@ + t
                        + "` violates the kernel charset (alphanumeric + '-' + '_', max 32 chars)"@,
                },
            )
        },
    }
}

fn slot_name_fits(t: &str) -> (r: bool)
    ensures
        r == slot_name_ok(t@),
{
    if t.is_empty() || t.as_bytes().len() > 32 {
        return false;
    }
    let n: usize = t.unicode_len();
    let mut i: usize = 0;
    while i < n
        invariant
            n == t@.len(),
            i <= n,
            forall|k: int| 0 <= k < i ==> slot_char(#[trigger] t@[k]),
        decreases n - i,
    {
        let c = t.get_char(i);
        let u: u32 = c as u32;
        let fits = (0x30 <= u && u <= 0x39) || (0x41 <= u && u <= 0x5a) || (0x61 <= u && u <= 0x7a)
            || c == '-' || c == '_';
        if !fits {
            assert(!slot_char(t@[i as int]));
            return false;
        }
        i = i + 1;
    }
    true
}

/// Checks a UI slot name; no name stands for the default slot.
pub fn validate_ui_slot(scope: &ScopePath, slot: &Option<String>) -> (r: Result<(), ScopeError>)
    ensures
        value::failure(r) == ui_slot_error(scope@, value::opt_view(*slot)),
{
    match slot {
        None => Ok(()),
        Some(t) => {
            if slot_name_fits(t.as_str()) {
                return Ok(());
            }
            Err(
                ScopeError::InvalidContribution {
                    scope: scope.copy(),
                    reason: text::cat3(
                        "ui mount slot `",
                        t.as_str(),
                        "` violates the kernel charset (alphanumeric + '-' + '_', max 32 chars)",
                    ),
                },
            )
        },
    }
}

/// Every coordinate of a secret reference is given.
pub open spec fn reference_ok(k: KeyReferenceView) -> bool {
    match k {
        KeyReferenceView::Env { name } => name.len() > 0,
        KeyReferenceView::Keychain { service, account } => service.len() > 0 && account.len() > 0,
    }
}

/// A secret reference as its fields are displayed.
pub open spec fn reference_text(k: KeyReferenceView) -> Seq<char> {
    match k {
        KeyReferenceView::Env { name } => "Env { name: "@ + text::debug_text(name) + " }"@,
        KeyReferenceView::Keychain { service, account } => "Keychain { service: "@
            + text::debug_text(service) + ", account: "@ + text::debug_text(account) + " }"@,
    }
}

pub open spec fn settings_error(
    scope: Seq<Seq<char>>,
    s: SettingsView,
) -> Option<ScopeErrorView> {
    match s.provider {
        Some(p) => match p.key {
            Some(k) => if reference_ok(k) {
                None
            } else {
                Some(
                    ScopeErrorView::InvalidContribution {
                        scope,
                        reason: "settings key reference `"@ + reference_text(k)
                            + "` has an empty field"@,
                    },
                )
            },
            None => None,
        },
        None => None,
    }
}

/// Checks that a settings overlay's secret reference has no empty field.
pub fn validate_settings(scope: &ScopePath, settings: &SettingsContribution) -> (r: Result<
    (),
    ScopeError,
>)
    ensures
        value::failure(r) == settings_error(scope@, settings@),
{
    let provider = match &settings.provider {
        Some(p) => p,
        None => {
            return Ok(());
        },
    };
    let key = match &provider.key {
        Some(k) => k,
        None => {
            return Ok(());
        },
    };
    let shown = match key {
        KeyReference::Env { name } => {
            if !name.as_str().is_empty() {
                return Ok(());
            }
            let n = text::debug(name.as_str());
            text::cat3("Env { name: ", n.as_str(), " }")
        },
        KeyReference::Keychain { service, account } => {
            if !service.as_str().is_empty() && !account.as_str().is_empty() {
                return Ok(());
            }
            let s = text::debug(service.as_str());
            let a = text::debug(account.as_str());
            text::cat5("Keychain { service: ", s.as_str(), ", account: ", a.as_str(), " }")
        },
    };
    Err(
        ScopeError::InvalidContribution {
            scope: scope.copy(),
            reason: text::cat3("settings key reference `", shown.as_str(), "` has an empty field"),
        },
    )
}

/// A tool manifest is an object with a boolean `replay_relevant`.
pub open spec fn manifest_ok(m: JsonView) -> bool {
    m is Object && (json::member(m, "replay_relevant"@) matches Some(v) && v is Bool)
}

/// The displayed holder of a service.
pub open spec fn provider_identity(p: ProviderView) -> Seq<char> {
    p.module_id + "@"@ + text::decimal(p.generation as nat)
}

/// The displayed holder of a service: its module and generation.
pub fn identity_of(p: &ServiceProvider) -> (r: String)
    ensures
        r@ == provider_identity(p@),
{
    let n = text::decimal_text(p.generation);
    text::cat3(p.module_id.text.as_str(), "@", n.as_str())
}

pub open spec fn theme_error(scope: Seq<Seq<char>>) -> ScopeErrorView {
    ScopeErrorView::InvalidContribution {
        scope,
        reason: "theme overlay must be a JSON object (R-19 validated overlay)"@,
    }
}

pub open spec fn conflict_view(
    c: ContributionView,
    name: Seq<char>,
    holder: Seq<char>,
    challenger: Seq<char>,
) -> ScopeErrorView {
    ScopeErrorView::Conflict {
        kind: crate::contribution::tag(c.kind),
        scope: c.scope,
        name,
        holder,
        challenger,
    }
}

/// The name of whoever holds a contribution's slot: its handler, component,
/// predicate or providing module.
pub open spec fn holder_name(c: ContributionView) -> Seq<char> {
    match c.kind {
        KindView::Command { handler, .. } => handler,
        KindView::Tool { handler, .. } => handler,
        KindView::Service { provider, .. } => provider_identity(provider),
        KindView::ProjectionStage { handler, .. } => handler,
        KindView::UiMount { component, .. } => component,
        KindView::Guard { predicate, .. } => predicate,
        _ => Seq::empty(),
    }
}

/// The name a conflict is reported under.
pub open spec fn conflict_name(c: ContributionView) -> Seq<char> {
    match c.kind {
        KindView::Command { name, .. } => name,
        KindView::Tool { name, .. } => name,
        KindView::Service { key, .. } => key.name,
        KindView::ProjectionStage { slot, .. } => slot,
        KindView::UiMount { name, .. } => name,
        KindView::Guard { name, .. } => name,
        _ => Seq::empty(),
    }
}

/// Who holds the slot of `c`: the last earlier entry of the staged set, else
/// the registration.
pub open spec fn holder(
    entries: Seq<ContributionView>,
    published: Seq<EntryView>,
    seen: Seq<ContributionView>,
    c: ContributionView,
) -> Option<Seq<char>> {
    match latest(seen, slot_of(c)) {
        Some(e) => Some(holder_name(e)),
        None => match c.kind {
            KindView::Service { key, .. } => if services::holds(published, key) {
                Some(provider_identity(services::holder_of(published, key)))
            } else {
                None
            },
            _ => match latest(entries, slot_of(c)) {
                Some(e) => Some(holder_name(e)),
                None => None,
            },
        },
    }
}

/// The slot of `c` is held: a conflict.
pub open spec fn held_error(
    entries: Seq<ContributionView>,
    published: Seq<EntryView>,
    seen: Seq<ContributionView>,
    c: ContributionView,
) -> Option<ScopeErrorView> {
    match holder(entries, published, seen, c) {
        Some(h) => Some(conflict_view(c, conflict_name(c), h, holder_name(c))),
        None => None,
    }
}

/// The guard that stands in the slot of `c`.
pub open spec fn standing_guard(
    entries: Seq<ContributionView>,
    seen: Seq<ContributionView>,
    c: ContributionView,
) -> Option<ContributionView> {
    match latest(seen, slot_of(c)) {
        Some(e) => Some(e),
        None => latest(entries, slot_of(c)),
    }
}

/// The rule that `c` breaks, against the registrations and the earlier
/// entries of its staged set.
pub open spec fn violation(
    entries: Seq<ContributionView>,
    published: Seq<EntryView>,
    seen: Seq<ContributionView>,
    c: ContributionView,
) -> Option<ScopeErrorView> {
    match c.kind {
        KindView::Command { .. } => held_error(entries, published, seen, c),
        KindView::Tool { manifest, .. } => if !manifest_ok(manifest) {
            Some(
                ScopeErrorView::InvalidContribution {
                    scope: c.scope,
                    reason: "tool manifest must be a JSON object with a boolean `replay_relevant` (R-04)"@,
                },
            )
        } else {
            held_error(entries, published, seen, c)
        },
        KindView::Service { key, .. } => if key.scope != c.scope {
            Some(
                ScopeErrorView::InvalidContribution {
                    scope: c.scope,
                    reason: "service key scope `"@ + services::scope_text(key.scope)
                        + "` differs from the contribution scope `"@ + services::scope_text(
                        c.scope,
                    ) + "` (R-25/C-06: keys are namespaced by the owning scope)"@,
                },
            )
        } else {
            held_error(entries, published, seen, c)
        },
        KindView::Keymap { .. } => None,
        KindView::Theme { overlay, .. } => if overlay is Object {
            None
        } else {
            Some(theme_error(c.scope))
        },
        KindView::ProjectionStage { .. } => held_error(entries, published, seen, c),
        KindView::UiMount { slot, .. } => if ui_slot_error(c.scope, slot) is Some {
            ui_slot_error(c.scope, slot)
        } else {
            held_error(entries, published, seen, c)
        },
        KindView::Guard { monotonic, .. } => match standing_guard(entries, seen, c) {
            Some(e) => if e.kind->monotonic && !monotonic {
                held_error(entries, published, seen, c)
            } else {
                None
            },
            None => None,
        },
        KindView::Settings(s) => settings_error(c.scope, s),
        KindView::Hook { .. } => None,
    }
}

/// The first violation of a staged set.
pub open spec fn set_violation(
    entries: Seq<ContributionView>,
    published: Seq<EntryView>,
    staged: Seq<ContributionView>,
) -> Option<ScopeErrorView>
    decreases staged.len(),
{
    if staged.len() == 0 {
        None
    } else {
        let earlier = set_violation(entries, published, staged.drop_last());
        if earlier is Some {
            earlier
        } else {
            violation(entries, published, staged.drop_last(), staged.last())
        }
    }
}

pub proof fn lemma_set_violation_stays(
    entries: Seq<ContributionView>,
    published: Seq<EntryView>,
    staged: Seq<ContributionView>,
    n: int,
)
    requires
        0 <= n <= staged.len(),
        set_violation(entries, published, staged.take(n)) is Some,
    ensures
        set_violation(entries, published, staged) == set_violation(
            entries,
            published,
            staged.take(n),
        ),
    decreases staged.len() - n,
{
    if n == staged.len() {
        assert(staged.take(n) =~= staged);
    } else {
        assert(staged.take(n + 1).drop_last() =~= staged.take(n));
        lemma_set_violation_stays(entries, published, staged, n + 1);
    }
}

/// The holder's name of a contribution.
fn named_holder(c: &Contribution) -> (r: String)
    ensures
        r@ == holder_name(c@),
{
    match &c.kind {
        ContributionKind::Command(x) => x.handler.clone(),
        ContributionKind::Tool(x) => x.handler.clone(),
        ContributionKind::Service(x) => identity_of(&x.provider),
        ContributionKind::ProjectionStage(x) => x.handler.clone(),
        ContributionKind::UiMount(x) => x.component.clone(),
        ContributionKind::Guard(x) => x.predicate.clone(),
        _ => {
            let s = String::new();
            assert(s@ =~= Seq::empty());
            s
        },
    }
}

fn reported_name(c: &Contribution) -> (r: String)
    ensures
        r@ == conflict_name(c@),
{
    match &c.kind {
        ContributionKind::Command(x) => x.name.clone(),
        ContributionKind::Tool(x) => x.name.clone(),
        ContributionKind::Service(x) => x.key.name.clone(),
        ContributionKind::ProjectionStage(x) => x.slot.clone(),
        ContributionKind::UiMount(x) => x.name.clone(),
        ContributionKind::Guard(x) => x.name.clone(),
        _ => {
            let s = String::new();
            assert(s@ =~= Seq::empty());
            s
        },
    }
}

fn conflict(c: &Contribution, holder: String) -> (r: ScopeError)
    ensures
        r@ == conflict_view(c@, conflict_name(c@), holder@, holder_name(c@)),
{
    ScopeError::Conflict {
        kind: c.kind.kind_tag(),
        scope: c.scope.copy(),
        name: reported_name(c),
        holder,
        challenger: named_holder(c),
    }
}

/// Refuses a contribution whose slot is held.
fn check_free(
    entries: &Vec<Contribution>,
    published: &ServiceRegistry,
    staged: &[Contribution],
    n: usize,
) -> (r: Result<(), ScopeError>)
    requires
        n < staged@.len(),
        published.wf(),
    ensures
        value::failure(r) == held_error(
            value::views(entries@),
            published@,
            value::views(staged@).take(n as int),
            staged@[n as int]@,
        ),
{
    let c = &staged[n];
    match find_last(staged, n, c) {
        Some(p) => {
            assert(value::views(staged@).take(n as int)[p as int] == staged@[p as int]@);
            return Err(conflict(c, named_holder(&staged[p])));
        },
        None => {},
    }
    match &c.kind {
        ContributionKind::Service(s) => match published.holder(&s.key) {
            Some(p) => Err(conflict(c, identity_of(p))),
            None => Ok(()),
        },
        _ => {
            assert(value::views(entries@).take(entries.len() as int) =~= value::views(entries@));
            match find_last(entries.as_slice(), entries.len(), c) {
                Some(p) => Err(conflict(c, named_holder(&entries[p]))),
                None => Ok(()),
            }
        },
    }
}

/// Refuses a non-monotonic guard where a monotonic one stands.
fn check_guard(
    entries: &Vec<Contribution>,
    published: &ServiceRegistry,
    staged: &[Contribution],
    n: usize,
) -> (r: Result<(), ScopeError>)
    requires
        n < staged@.len(),
        published.wf(),
        staged@[n as int]@.kind is Guard,
    ensures
        value::failure(r) == violation(
            value::views(entries@),
            published@,
            value::views(staged@).take(n as int),
            staged@[n as int]@,
        ),
{
    let c = &staged[n];
    let weak = match &c.kind {
        ContributionKind::Guard(g) => !g.monotonic,
        _ => false,
    };
    let ghost seen = value::views(staged@).take(n as int);
    let ghost all = value::views(entries@);
    let standing = match find_last(staged, n, c) {
        Some(p) => {
            proof {
                assert(seen[p as int] == staged@[p as int]@);
                lemma_last_place(seen, slot_of(c@));
            }
            match &staged[p].kind {
                ContributionKind::Guard(g) => g.monotonic,
                _ => false,
            }
        },
        None => {
            assert(all.take(entries.len() as int) =~= all);
            match find_last(entries.as_slice(), entries.len(), c) {
                Some(p) => {
                    proof {
                        lemma_last_place(all, slot_of(c@));
                    }
                    match &entries[p].kind {
                        ContributionKind::Guard(g) => g.monotonic,
                        _ => false,
                    }
                },
                None => false,
            }
        },
    };
    if standing && weak {
        return check_free(entries, published, staged, n);
    }
    Ok(())
}

/// Checks one contribution of a staged set.
fn check_one(
    entries: &Vec<Contribution>,
    published: &ServiceRegistry,
    staged: &[Contribution],
    n: usize,
) -> (r: Result<(), ScopeError>)
    requires
        n < staged@.len(),
        published.wf(),
    ensures
        value::failure(r) == violation(
            value::views(entries@),
            published@,
            value::views(staged@).take(n as int),
            staged@[n as int]@,
        ),
{
    let c = &staged[n];
    match &c.kind {
        ContributionKind::Command(_) => check_free(entries, published, staged, n),
        ContributionKind::Tool(t) => {
            let declared = match t.manifest.get("replay_relevant") {
                Some(v) => v.is_bool(),
                None => false,
            };
            if !t.manifest.is_object() || !declared {
                return Err(
                    ScopeError::InvalidContribution {
                        scope: c.scope.copy(),
                        reason: "tool manifest must be a JSON object with a boolean `replay_relevant` (R-04)".to_owned(),
                    },
                );
            }
            check_free(entries, published, staged, n)
        },
        ContributionKind::Service(s) => {
            if !s.key.scope.same(&c.scope) {
                let named = s.key.scope.text();
                let own = c.scope.text();
                return Err(
                    ScopeError::InvalidContribution {
                        scope: c.scope.copy(),
                        reason: text::cat5(
                            "service key scope `",
                            named.as_str(),
                            "` differs from the contribution scope `",
                            own.as_str(),
                            "` (R-25/C-06: keys are namespaced by the owning scope)",
                        ),
                    },
                );
            }
            check_free(entries, published, staged, n)
        },
        ContributionKind::Keymap(_) => Ok(()),
        ContributionKind::Theme(t) => {
            if !t.overlay.is_object() {
                return Err(
                    ScopeError::InvalidContribution {
                        scope: c.scope.copy(),
                        reason: "theme overlay must be a JSON object (R-19 validated overlay)".to_owned(),
                    },
                );
            }
            Ok(())
        },
        ContributionKind::ProjectionStage(_) => check_free(entries, published, staged, n),
        ContributionKind::UiMount(u) => {
            match validate_ui_slot(&c.scope, &u.slot) {
                Err(e) => Err(e),
                Ok(_) => check_free(entries, published, staged, n),
            }
        },
        ContributionKind::Guard(_) => check_guard(entries, published, staged, n),
        ContributionKind::Settings(s) => validate_settings(&c.scope, s),
        ContributionKind::Hook(_) => Ok(()),
    }
}

/// Checks a staged set against the registrations and itself; the first
/// violation is returned.
pub fn validate_inner(
    entries: &Vec<Contribution>,
    published: &ServiceRegistry,
    staged: &[Contribution],
) -> (r: Result<(), ScopeError>)
    requires
        published.wf(),
    ensures
        value::failure(r) == set_violation(
            value::views(entries@),
            published@,
            value::views(staged@),
        ),
{
    let ghost all = value::views(staged@);
    let ghost own = value::views(entries@);
    let mut i: usize = 0;
    assert(all.take(0) =~= Seq::empty());
    while i < staged.len()
        invariant
            i <= staged@.len(),
            published.wf(),
            all == value::views(staged@),
            own == value::views(entries@),
            set_violation(own, published@, all.take(i as int)) is None,
        decreases staged@.len() - i,
    {
        proof {
            assert(all.take(i + 1).drop_last() =~= all.take(i as int));
            assert(all.take(i + 1).last() == staged@[i as int]@);
        }
        match check_one(entries, published, staged, i) {
            Err(e) => {
                proof {
                    lemma_set_violation_stays(own, published@, all, i + 1);
                }
                return Err(e);
            },
            Ok(_) => {},
        }
        i = i + 1;
    }
    assert(all.take(i as int) =~= all);
    Ok(())
}

} // verus!
