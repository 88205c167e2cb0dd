//! The trust policy of config layers: every path that reads a generation's
//! settings goes through it.
use vstd::prelude::*;
use vstd::string::*;
use crate::contribution::{
    ApprovalSettings, Contribution, ContributionKind, ContributionView, KindView, ProviderSettings,
    ProviderSettingsView, SettingsContribution, SettingsView,
};
use crate::package::ModuleOrigin;
use crate::text;
use crate::value;
use crate::value::Value;

verus! {

broadcast use value::group_views;

/// Origins whose sensitive settings count. Whatever a workspace or an agent
/// supplies could otherwise approve its own tools or send a secret elsewhere.
pub open spec fn is_trusted(origin: ModuleOrigin) -> bool {
    origin == ModuleOrigin::Builtin || origin == ModuleOrigin::UserConfig
}

pub fn origin_is_trusted_for_settings(origin: ModuleOrigin) -> (r: bool)
    ensures
        r == is_trusted(origin),
{
    match origin {
        ModuleOrigin::Builtin => true,
        ModuleOrigin::UserConfig => true,
        _ => false,
    }
}

// ---------- base URLs ----------

/// What follows the scheme of an `http` or `https` URL.
pub open spec fn after_scheme(url: Seq<char>) -> Option<Seq<char>> {
    if "http://"@.is_prefix_of(url) {
        Some(url.skip("http://"@.len() as int))
    } else if "https://"@.is_prefix_of(url) {
        Some(url.skip("https://"@.len() as int))
    } else {
        None
    }
}

pub open spec fn ends_authority(c: char) -> bool {
    c == '/' || c == '?' || c == '#'
}

/// The part before the path, the query or the fragment.
pub open spec fn authority(rest: Seq<char>) -> Seq<char>
    decreases rest.len(),
{
    if rest.len() == 0 || ends_authority(rest[0]) {
        Seq::empty()
    } else {
        seq![rest[0]] + authority(rest.drop_first())
    }
}

/// An `http` or `https` URL with a host: its authority is there and does not
/// end with the user part.
pub open spec fn is_base_url(url: Seq<char>) -> bool {
    match after_scheme(url) {
        Some(rest) => authority(rest).len() > 0 && authority(rest).last() != '@',
        None => false,
    }
}

proof fn lemma_authority(rest: Seq<char>, n: int)
    requires
        0 <= n <= rest.len(),
        forall|i: int| 0 <= i < n ==> !ends_authority(#[trigger] rest[i]),
        n < rest.len() ==> ends_authority(rest[n]),
    ensures
        authority(rest) == rest.take(n),
    decreases rest.len(),
{
    if n == 0 {
        assert(rest.take(0) =~= Seq::empty());
    } else {
        assert(!ends_authority(rest[0]));
        let t = rest.drop_first();
        assert forall|i: int| 0 <= i < n - 1 implies !ends_authority(#[trigger] t[i]) by {
            assert(t[i] == rest[i + 1]);
        }
        lemma_authority(t, n - 1);
        assert(rest.take(n) =~= seq![rest[0]] + t.take(n - 1));
    }
}

fn starts_with(t: &str, prefix: &str) -> (r: bool)
    ensures
        r == prefix@.is_prefix_of(t@),
{
    let n: usize = prefix.unicode_len();
    if t.unicode_len() < n {
        return false;
    }
    let head = t.substring_char(0, n);
    assert(head@ == t@.subrange(0, n as int));
    let r = text::same_text(head, prefix);
    assert(r == (prefix@ =~= t@.subrange(0, n as int)));
    r
}

fn has_host(t: &str, from: usize) -> (r: bool)
    requires
        from <= t@.len(),
    ensures
        ({
            let a = authority(t@.skip(from as int));
            r == (a.len() > 0 && a.last() != '@')
        }),
{
    let ghost rest = t@.skip(from as int);
    let n: usize = t.unicode_len();
    let mut i: usize = from;
    while i < n
        invariant
            from <= i <= n,
            n == t@.len(),
            rest == t@.skip(from as int),
            forall|k: int| 0 <= k < i - from ==> !ends_authority(#[trigger] rest[k]),
        decreases n - i,
    {
        let c = t.get_char(i);
        assert(rest[i - from] == c);
        if c == '/' || c == '?' || c == '#' {
            proof {
                lemma_authority(rest, i - from);
            }
            if i == from {
                return false;
            }
            assert(authority(rest).last() == rest[i - from - 1]);
            assert(rest[i - from - 1] == t@[i - 1]);
            return t.get_char(i - 1) != '@';
        }
        i = i + 1;
    }
    proof {
        lemma_authority(rest, i - from);
        assert(rest.take(i - from) =~= rest);
    }
    if i == from {
        return false;
    }
    assert(authority(rest).last() == t@[i - 1]);
    t.get_char(i - 1) != '@'
}

/// Whether a URL can be a provider's base.
pub fn valid_base_url(url: &str) -> (r: bool)
    ensures
        r == is_base_url(url@),
{
    proof {
        reveal_strlit("http://");
        reveal_strlit("https://");
    }
    if starts_with(url, "http://") {
        has_host(url, 7)
    } else if starts_with(url, "https://") {
        has_host(url, 8)
    } else {
        false
    }
}

// ---------- trust ----------

/// Provider settings as far as their origin goes: no malformed base URL from
/// anyone, and nothing sensitive from an untrusted origin.
pub open spec fn gated_provider(p: ProviderSettingsView, trusted: bool) -> ProviderSettingsView {
    ProviderSettingsView {
        base_url: match p.base_url {
            Some(url) => if trusted && is_base_url(url) {
                Some(url)
            } else {
                None
            },
            None => None,
        },
        key: if trusted {
            p.key
        } else {
            None
        },
        fake: if trusted {
            p.fake
        } else {
            None
        },
        ..p
    }
}

pub open spec fn gated_approval(a: ApprovalSettings, trusted: bool) -> ApprovalSettings {
    if trusted {
        a
    } else {
        ApprovalSettings { auto_approve: None, yolo: None }
    }
}

pub open spec fn gated_settings(s: SettingsView, trusted: bool) -> SettingsView {
    SettingsView {
        provider: match s.provider {
            Some(p) => Some(gated_provider(p, trusted)),
            None => None,
        },
        approval: match s.approval {
            Some(a) => Some(gated_approval(a, trusted)),
            None => None,
        },
    }
}

/// A contribution as far as its origin goes.
pub open spec fn gated(c: ContributionView, trusted: bool) -> ContributionView {
    match c.kind {
        KindView::Settings(s) => ContributionView {
            kind: KindView::Settings(gated_settings(s, trusted)),
            ..c
        },
        _ => c,
    }
}

fn gate_one(c: Contribution, trusted: bool) -> (r: Contribution)
    ensures
        r@ == gated(c@, trusted),
{
    let Contribution { scope, kind } = c;
    let kind = match kind {
        ContributionKind::Settings(s) => {
            let provider = match s.provider {
                Some(p) => {
                    let base_url = match p.base_url {
                        Some(url) => if trusted && valid_base_url(url.as_str()) {
                            Some(url)
                        } else {
                            None
                        },
                        None => None,
                    };
                    let key = if trusted {
                        p.key
                    } else {
                        None
                    };
                    let fake = if trusted {
                        p.fake
                    } else {
                        None
                    };
                    Some(
                        ProviderSettings {
                            base_url,
                            model: p.model,
                            protocol: p.protocol,
                            key,
                            fake,
                        },
                    )
                },
                None => None,
            };
            let approval = match s.approval {
                Some(a) => if trusted {
                    Some(a)
                } else {
                    Some(ApprovalSettings { auto_approve: None, yolo: None })
                },
                None => None,
            };
            ContributionKind::Settings(SettingsContribution { provider, approval })
        },
        other => other,
    };
    Contribution { scope, kind }
}

/// Filters what a generation publishes before it is staged.
pub fn gate_settings_contributions(origin: ModuleOrigin, contributions: Vec<Contribution>) -> (r:
    Vec<Contribution>)
    ensures
        value::views(r@) == value::views(contributions@).map_values(
            |c: ContributionView| gated(c, is_trusted(origin)),
        ),
{
    let trusted = origin_is_trusted_for_settings(origin);
    let ghost all = value::views(contributions@);
    let ghost want = all.map_values(|c: ContributionView| gated(c, trusted));
    let mut rest = contributions;
    let mut back: Vec<Contribution> = Vec::new();
    while rest.len() > 0
        invariant
            rest.len() + back.len() == all.len(),
            value::views(rest@) == all.take(rest.len() as int),
            forall|j: int|
                0 <= j < back.len() ==> (#[trigger] back@[j])@ == gated(
                    all[all.len() - 1 - j],
                    trusted,
                ),
        decreases rest.len(),
    {
        let ghost n = rest.len();
        let ghost before = value::views(rest@);
        assert(before.last() == rest@.last()@);
        let c = rest.pop().unwrap();
        assert(value::views(rest@) =~= before.drop_last());
        assert(before.drop_last() =~= all.take(n - 1));
        back.push(gate_one(c, trusted));
    }
    let mut out: Vec<Contribution> = Vec::new();
    while back.len() > 0
        invariant
            out.len() + back.len() == all.len(),
            want == all.map_values(|c: ContributionView| gated(c, trusted)),
            value::views(out@) == want.take(out.len() as int),
            forall|j: int|
                0 <= j < back.len() ==> (#[trigger] back@[j])@ == gated(
                    all[all.len() - 1 - j],
                    trusted,
                ),
        decreases back.len(),
    {
        let ghost k = out.len() as int;
        assert(back@[back.len() - 1]@ == want[k]);
        let c = back.pop().unwrap();
        out.push(c);
        assert(want.take(k + 1) =~= want.take(k).push(want[k]));
    }
    assert(want.take(out.len() as int) =~= want);
    out
}

/// Whether one config layer may displace another: an untrusted one never
/// displaces a trusted one, a trusted one always reclaims from an untrusted
/// one, and otherwise a strictly higher rank wins.
pub open spec fn may_supersede(
    challenger: ModuleOrigin,
    challenger_rank: u8,
    holder: ModuleOrigin,
    holder_rank: u8,
) -> bool {
    if is_trusted(challenger) != is_trusted(holder) {
        is_trusted(challenger)
    } else {
        challenger_rank > holder_rank
    }
}

pub fn settings_supersede_allowed(
    challenger: ModuleOrigin,
    challenger_rank: u8,
    holder: ModuleOrigin,
    holder_rank: u8,
) -> (r: bool)
    ensures
        r == may_supersede(challenger, challenger_rank, holder, holder_rank),
{
    match (
        origin_is_trusted_for_settings(challenger),
        origin_is_trusted_for_settings(holder),
    ) {
        (false, true) => false,
        (true, false) => true,
        _ => challenger_rank > holder_rank,
    }
}

// ---------- laws ----------

/// Gating twice is gating once.
pub proof fn law_gate_is_idempotent(c: ContributionView, trusted: bool)
    ensures
        gated(gated(c, trusted), trusted) == gated(c, trusted),
{
}

/// Nothing sensitive comes through from an untrusted origin.
pub proof fn law_untrusted_settings_carry_nothing_sensitive(s: SettingsView)
    ensures
        gated_settings(s, false).provider matches Some(p) ==> p.base_url is None && p.key is None
            && p.fake is None,
        gated_settings(s, false).approval matches Some(a) ==> a.auto_approve is None && a.yolo
            is None,
{
}

/// What is not sensitive comes through from every origin.
pub proof fn law_plain_settings_pass(s: SettingsView, trusted: bool)
    ensures
        s.provider matches Some(p) ==> (gated_settings(s, trusted).provider matches Some(q)
            && q.model == p.model && q.protocol == p.protocol),
{
}

/// Two layers never displace each other in turn.
pub proof fn law_supersession_is_one_way(a: ModuleOrigin, ra: u8, b: ModuleOrigin, rb: u8)
    ensures
        !(may_supersede(a, ra, b, rb) && may_supersede(b, rb, a, ra)),
{
}

proof fn lemma_host(host: Seq<char>, rest: Seq<char>)
    requires
        forall|i: int| 0 <= i < host.len() ==> (#[trigger] host[i]) != '/' && host[i] != '?'
            && host[i] != '#',
        rest.len() == 0 || rest[0] == '/' || rest[0] == '?' || rest[0] == '#',
    ensures
        authority(host + rest) == host,
    decreases host.len(),
{
    let all = host + rest;
    if host.len() == 0 {
        assert(all =~= rest);
        assert(authority(all) =~= host);
    } else {
        let h = host.drop_first();
        assert(host[0] != '/');
        assert forall|i: int| 0 <= i < h.len() implies (#[trigger] h[i]) != '/' && h[i] != '?'
            && h[i] != '#' by {
            assert(h[i] == host[i + 1]);
        }
        lemma_host(h, rest);
        assert(all.drop_first() =~= h + rest);
        assert(all[0] == host[0]);
        assert(authority(all) =~= host);
    }
}

/// A URL is a base URL exactly if it has a host: what stands between an `http`
/// or `https` scheme and the path, the query, the fragment or the end is not
/// empty and does not end with the user part.
pub proof fn law_base_urls_have_a_host(host: Seq<char>, rest: Seq<char>)
    requires
        forall|i: int| 0 <= i < host.len() ==> (#[trigger] host[i]) != '/' && host[i] != '?'
            && host[i] != '#',
        rest.len() == 0 || rest[0] == '/' || rest[0] == '?' || rest[0] == '#',
    ensures
        is_base_url("http://"@ + host + rest) <==> host.len() > 0 && host.last() != '@',
        is_base_url("https://"@ + host + rest) <==> host.len() > 0 && host.last() != '@',
{
    reveal_strlit("http://");
    reveal_strlit("https://");
    lemma_host(host, rest);
    let a = "http://"@ + host + rest;
    assert(a =~= "http://"@ + (host + rest));
    assert(a.skip(7) =~= host + rest);
    assert("http://"@.is_prefix_of(a));
    let b = "https://"@ + host + rest;
    assert(b =~= "https://"@ + (host + rest));
    assert(b.skip(8) =~= host + rest);
    assert("https://"@.is_prefix_of(b));
    assert(b[4] == 's');
    assert("http://"@[4] == ':');
    assert(!("http://"@.is_prefix_of(b))) by {
        if "http://"@.is_prefix_of(b) {
            assert(b.subrange(0, 7)[4] == b[4]);
        }
    }
}

/// No URL of another scheme is a base URL.
pub proof fn law_other_schemes_are_no_base(url: Seq<char>)
    requires
        is_base_url(url),
    ensures
        "http://"@.is_prefix_of(url) || "https://"@.is_prefix_of(url),
{
}

/// Exactly the built-in layer and the user's own config are trusted.
pub proof fn law_only_the_user_is_trusted(origin: ModuleOrigin)
    ensures
        is_trusted(ModuleOrigin::Builtin),
        is_trusted(ModuleOrigin::UserConfig),
        !is_trusted(ModuleOrigin::WorkspaceConfig),
        !is_trusted(ModuleOrigin::UserInstalled),
        !is_trusted(ModuleOrigin::Agent),
{
}

/// From a trusted origin everything comes through but a base URL that is
/// none.
pub proof fn law_trusted_settings_pass(s: SettingsView, c: ContributionView)
    ensures
        gated_settings(s, true).approval == s.approval,
        s.provider is None ==> gated_settings(s, true).provider is None,
        s.provider matches Some(p) ==> (gated_settings(s, true).provider matches Some(q) && q.key
            == p.key && q.fake == p.fake && q.model == p.model && q.protocol == p.protocol
            && q.base_url == (if p.base_url is Some && is_base_url(p.base_url->0) {
            p.base_url
        } else {
            None
        })),
        !(c.kind is Settings) ==> gated(c, true) == c && gated(c, false) == c,
        c.kind matches KindView::Settings(x) ==> gated(c, true).scope == c.scope && gated(
            c,
            true,
        ).kind == KindView::Settings(gated_settings(x, true)) && gated(c, false).kind
            == KindView::Settings(gated_settings(x, false)),
{
}

/// A trusted layer takes over from an untrusted one whatever their ranks, an
/// untrusted one never takes over from a trusted one, and between equals the
/// strictly higher rank does.
pub proof fn law_trust_goes_before_rank(a: ModuleOrigin, ra: u8, b: ModuleOrigin, rb: u8)
    ensures
        is_trusted(a) && !is_trusted(b) ==> may_supersede(a, ra, b, rb),
        !is_trusted(a) && is_trusted(b) ==> !may_supersede(a, ra, b, rb),
        is_trusted(a) == is_trusted(b) ==> (may_supersede(a, ra, b, rb) <==> ra > rb),
{
}

} // verus!
