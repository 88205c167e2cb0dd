//! The bounded queue of approvals that await the user.
use vstd::prelude::*;
use vstd::string::*;
use crate::ids::Digest;
use crate::text;
use crate::tools;
use crate::tools::{Principal, PrincipalView, ToolIntent, ToolIntentView, ToolOutcome};
use crate::value;
use crate::value::Value;

verus! {

broadcast use value::group_views;

/// A parked approval: the committed intent it binds, the digest of exactly that
/// intent, and the versions it was granted under.
#[derive(Debug, Clone, PartialEq, Eq)]
pub struct ParkedApproval {
    pub intent: ToolIntent,
    pub digest: Digest,
    pub principal: Principal,
    pub policy_version: u64,
    pub grants_version: u64,
}

pub struct ParkedApprovalView {
    pub intent: ToolIntentView,
    pub digest: Seq<char>,
    pub principal: PrincipalView,
    pub policy_version: u64,
    pub grants_version: u64,
}

impl View for ParkedApproval {
    type V = ParkedApprovalView;

    open spec fn view(&self) -> ParkedApprovalView {
        ParkedApprovalView {
            intent: self.intent@,
            digest: self.digest@,
            principal: self.principal@,
            policy_version: self.policy_version,
            grants_version: self.grants_version,
        }
    }
}

impl Value for ParkedApproval {
    fn copy(&self) -> (r: Self) {
        ParkedApproval {
            intent: self.intent.copy(),
            digest: self.digest.copy(),
            principal: self.principal.copy(),
            policy_version: self.policy_version,
            grants_version: self.grants_version,
        }
    }

    fn same(&self, other: &Self) -> (r: bool) {
        self.intent.same(&other.intent)
            && self.digest.same(&other.digest)
            && self.principal.same(&other.principal)
            && self.policy_version == other.policy_version
            && self.grants_version == other.grants_version
    }
}

/// Approvals in the order they were parked; the oldest leave when there are
/// more than the bound.
#[derive(Debug, Clone, PartialEq, Eq)]
pub struct ApprovalQueue {
    parked: Vec<ParkedApproval>,
    bound: usize,
}

pub struct ApprovalQueueView {
    pub parked: Seq<ParkedApprovalView>,
    pub bound: nat,
}

impl View for ApprovalQueue {
    type V = ApprovalQueueView;

    closed spec fn view(&self) -> ApprovalQueueView {
        ApprovalQueueView { parked: value::views(self.parked@), bound: self.bound as nat }
    }
}

/// The queue keeps to its bound, and binds committed intents only.
pub open spec fn queue_ok(q: ApprovalQueueView) -> bool {
    &&& q.parked.len() <= q.bound
    &&& forall|i: int|
        0 <= i < q.parked.len() ==> (#[trigger] q.parked[i]).intent.intent_event is Some
}

/// The `n` newest of a sequence.
pub open spec fn newest(s: Seq<ParkedApprovalView>, n: nat) -> Seq<ParkedApprovalView> {
    if s.len() > n {
        s.skip(s.len() - n)
    } else {
        s
    }
}

/// Where a digest is parked first; the length if it is not parked.
pub open spec fn place(s: Seq<ParkedApprovalView>, digest: Seq<char>) -> int
    decreases s.len(),
{
    if s.len() == 0 || s[0].digest == digest {
        0
    } else {
        1 + place(s.drop_first(), digest)
    }
}

/// Whether a digest is parked.
pub open spec fn parks(q: ApprovalQueueView, digest: Seq<char>) -> bool {
    place(q.parked, digest) < q.parked.len()
}

/// The queue without the first approval of a digest.
pub open spec fn released(q: ApprovalQueueView, digest: Seq<char>) -> ApprovalQueueView {
    if parks(q, digest) {
        ApprovalQueueView { parked: q.parked.remove(place(q.parked, digest)), ..q }
    } else {
        q
    }
}

/// The queue with one more approval.
pub open spec fn with_parked(q: ApprovalQueueView, p: ParkedApprovalView) -> ApprovalQueueView {
    ApprovalQueueView { parked: newest(q.parked.push(p), q.bound), ..q }
}

pub proof fn lemma_place(s: Seq<ParkedApprovalView>, digest: Seq<char>)
    ensures
        0 <= place(s, digest) <= s.len(),
        place(s, digest) < s.len() ==> s[place(s, digest)].digest == digest,
        forall|i: int| 0 <= i < place(s, digest) ==> (#[trigger] s[i]).digest != digest,
    decreases s.len(),
{
    if s.len() > 0 && s[0].digest != digest {
        lemma_place(s.drop_first(), digest);
        assert forall|i: int| 0 <= i < place(s, digest) implies (#[trigger] s[i]).digest
            != digest by {
            if i > 0 {
                assert(s[i] == s.drop_first()[i - 1]);
            }
        }
    }
}

proof fn lemma_is_place(s: Seq<ParkedApprovalView>, digest: Seq<char>, p: int)
    requires
        0 <= p <= s.len(),
        p < s.len() ==> s[p].digest == digest,
        forall|i: int| 0 <= i < p ==> (#[trigger] s[i]).digest != digest,
    ensures
        place(s, digest) == p,
{
    lemma_place(s, digest);
    let q = place(s, digest);
    if q < p {
        assert(s[q].digest != digest);
    } else if p < q {
        assert(s[p].digest != digest);
    }
}

/// What the user's decision on a digest comes to.
#[derive(Debug, Clone, PartialEq, Eq)]
pub enum Resolution {
    /// The digest is not parked any more: approving again takes a new intent.
    NotParked,
    /// The user denied it.
    Settled(ToolOutcome),
    /// The approval must hold still: re-derive its digest and re-run the guards.
    Verify(ParkedApproval),
}

impl ApprovalQueue {
    /// A queue that keeps at most `bound` approvals; none are kept under a
    /// bound of zero.
    pub fn new(bound: usize) -> (r: Self)
        ensures
            r@ == (ApprovalQueueView { parked: Seq::empty(), bound: bound as nat }),
            queue_ok(r@),
    {
        ApprovalQueue { parked: Vec::new(), bound }
    }

    /// Whether approvals are asked for at all.
    pub fn enabled(&self) -> (r: bool)
        ensures
            r == (self@.bound > 0),
    {
        self.bound > 0
    }

    fn position(&self, digest: &Digest) -> (r: Option<usize>)
        ensures
            match r {
                Some(i) => place(self@.parked, digest@) == i && i < self.parked@.len(),
                None => !parks(self@, digest@),
            },
    {
        let ghost all = value::views(self.parked@);
        let mut i: usize = 0;
        while i < self.parked.len()
            invariant
                i <= self.parked.len(),
                all == value::views(self.parked@),
                forall|j: int| 0 <= j < i ==> (#[trigger] all[j]).digest != digest@,
            decreases self.parked.len() - i,
        {
            assert(all[i as int] == self.parked@[i as int]@);
            if self.parked[i].digest.same(digest) {
                proof {
                    lemma_is_place(all, digest@, i as int);
                }
                return Some(i);
            }
            i = i + 1;
        }
        proof {
            lemma_is_place(all, digest@, all.len() as int);
        }
        None
    }

    /// Whether a digest is parked.
    pub fn contains(&self, digest: &Digest) -> (r: bool)
        ensures
            r == parks(self@, digest@),
    {
        match self.position(digest) {
            Some(i) => true,
            None => false,
        }
    }

    /// Parks an approval; the oldest leave past the bound.
    pub fn park(&mut self, p: ParkedApproval)
        requires
            queue_ok(old(self)@),
            p.intent.intent_event is Some,
        ensures
            final(self)@ == with_parked(old(self)@, p@),
            queue_ok(final(self)@),
    {
        let ghost before = value::views(self.parked@);
        let ghost grown = before.push(p@);
        let ghost bound = self.bound;
        self.parked.push(p);
        let ghost mut gone: int = 0;
        assert(grown.skip(0) =~= grown);
        while self.parked.len() > self.bound
            invariant
                0 <= gone <= grown.len(),
                self.bound == bound,
                grown.len() <= bound + 1,
                value::views(self.parked@) == grown.skip(gone),
                self.parked@.len() == grown.len() - gone,
                gone > 0 ==> self.parked@.len() == bound,
            decreases self.parked.len(),
        {
            let ghost now = self.parked@;
            self.parked.remove(0);
            proof {
                assert(value::views(self.parked@) =~= value::views(now).remove(0));
                assert(grown.skip(gone).remove(0) =~= grown.skip(gone + 1));
                gone = gone + 1;
            }
        }
        proof {
            assert(value::views(self.parked@) =~= newest(grown, bound as nat));
            let q = self@;
            assert forall|i: int| 0 <= i < q.parked.len() implies (
            #[trigger] q.parked[i]).intent.intent_event is Some by {
                let k = i + gone;
                assert(q.parked[i] == grown[k]);
                if k < before.len() {
                    assert(grown[k] == before[k]);
                }
            }
        }
    }

    /// The parked digests, oldest first.
    pub fn pending_approvals(&self) -> (r: Vec<Digest>)
        ensures
            value::views(r@) == self@.parked.map_values(|p: ParkedApprovalView| p.digest),
    {
        let ghost all = self@.parked.map_values(|p: ParkedApprovalView| p.digest);
        let mut out: Vec<Digest> = Vec::new();
        let mut i: usize = 0;
        assert(value::views(out@) =~= all.take(0));
        while i < self.parked.len()
            invariant
                i <= self.parked.len(),
                all == self@.parked.map_values(|p: ParkedApprovalView| p.digest),
                value::views(out@) == all.take(i as int),
            decreases self.parked.len() - i,
        {
            out.push(self.parked[i].digest.copy());
            assert(self@.parked[i as int] == self.parked@[i as int]@);
            assert(all.take(i + 1) =~= all.take(i as int).push(all[i as int]));
            i = i + 1;
        }
        assert(all.take(i as int) =~= all);
        out
    }

    /// The newest parked approval.
    pub fn newest_parked(&self) -> (r: Option<&ParkedApproval>)
        ensures
            match r {
                Some(p) => self@.parked.len() > 0 && p@ == self@.parked.last(),
                None => self@.parked.len() == 0,
            },
    {
        let n: usize = self.parked.len();
        if n == 0 {
            None
        } else {
            assert(self@.parked.last() == self.parked@[n - 1]@);
            Some(&self.parked[n - 1])
        }
    }

    /// Removes the first approval of a digest.
    pub fn release(&mut self, digest: &Digest)
        requires
            queue_ok(old(self)@),
        ensures
            final(self)@ == released(old(self)@, digest@),
            queue_ok(final(self)@),
    {
        let ghost before = self@;
        match self.position(digest) {
            Some(i) => {
                self.parked.remove(i);
                proof {
                    let q = self@;
                    assert(q.parked =~= before.parked.remove(i as int));
                    assert forall|k: int| 0 <= k < q.parked.len() implies (
                    #[trigger] q.parked[k]).intent.intent_event is Some by {
                        if k < i {
                            assert(q.parked[k] == before.parked[k]);
                        } else {
                            assert(q.parked[k] == before.parked[k + 1]);
                        }
                    }
                }
            },
            None => {},
        }
    }

    /// Takes the user's decision. A denial settles the intent and releases the
    /// approval; an approval stays parked until the dispatch is over.
    pub fn resolve(&mut self, digest: &Digest, approve: bool, now: &Option<Digest>) -> (r:
        Resolution)
        requires
            queue_ok(old(self)@),
        ensures
            queue_ok(final(self)@),
            match r {
                Resolution::NotParked => !parks(old(self)@, digest@) && final(self)@ == old(self)@,
                Resolution::Settled(outcome) => {
                    &&& parks(old(self)@, digest@)
                    &&& !approve
                    &&& outcome@ == tools::interrupted(
                        old(self)@.parked[place(old(self)@.parked, digest@)].intent,
                        value::opt_view(*now),
                        "approval denied by user"@,
                    )
                    &&& final(self)@ == released(old(self)@, digest@)
                },
                Resolution::Verify(p) => {
                    &&& parks(old(self)@, digest@)
                    &&& approve
                    &&& p@ == old(self)@.parked[place(old(self)@.parked, digest@)]
                    &&& final(self)@ == old(self)@
                },
            },
    {
        match self.position(digest) {
            Some(i) => {
                assert(self@.parked[i as int] == self.parked@[i as int]@);
                if approve {
                    Resolution::Verify(self.parked[i].copy())
                } else {
                    let outcome = tools::outcome_interrupted(
                        &self.parked[i].intent,
                        now,
                        "approval denied by user".to_owned(),
                    );
                    self.release(digest);
                    Resolution::Settled(outcome)
                }
            },
            None => Resolution::NotParked,
        }
    }
}

/// The approval binds the exact committed intent: `expected` is the digest
/// derived from it anew. The outcome where it does not match.
pub fn check_binding(p: &ParkedApproval, expected: &Digest, now: &Option<Digest>) -> (r: Option<
    ToolOutcome,
>)
    ensures
        value::opt_view(r) == if expected@ == p@.digest {
            None
        } else {
            Some(
                tools::interrupted(
                    p@.intent,
                    value::opt_view(*now),
                    "approval stale: the committed intent no longer matches the approved digest"@,
                ),
            )
        },
{
    if expected.same(&p.digest) {
        None
    } else {
        Some(
            tools::outcome_interrupted(
                &p.intent,
                now,
                "approval stale: the committed intent no longer matches the approved digest".to_owned(),
            ),
        )
    }
}

/// The guards hold still: `recheck` is the broker's word under the versions
/// captured at park time. The intent to dispatch, or the outcome.
pub fn check_standing(p: &ParkedApproval, recheck: Result<(), String>, now: &Option<Digest>) -> (r:
    Result<ToolIntent, ToolOutcome>)
    ensures
        match (r, recheck) {
            (Ok(intent), Ok(())) => intent@ == (ToolIntentView {
                approval: Some(p@.digest),
                ..p@.intent
            }),
            (Err(outcome), Err(e)) => outcome@ == tools::interrupted(
                p@.intent,
                value::opt_view(*now),
                "approval recheck: "@ + e@,
            ),
            _ => false,
        },
{
    match recheck {
        Ok(()) => {
            let mut intent = p.intent.copy();
            intent.approval = Some(p.digest.copy());
            Ok(intent)
        },
        Err(e) => Err(
            tools::outcome_interrupted(
                &p.intent,
                now,
                text::cat2("approval recheck: ", e.as_str()),
            ),
        ),
    }
}

// ---------- laws ----------

/// An evicted approval cannot be resolved: past the bound the oldest digest
/// is gone, unless it was parked a second time.
pub proof fn law_evicted_approvals_are_gone(q: ApprovalQueueView, p: ParkedApprovalView)
    requires
        queue_ok(q),
        q.bound > 0,
        q.parked.len() == q.bound,
        q.parked[0].digest != p.digest,
        forall|i: int|
            0 < i < q.parked.len() ==> (#[trigger] q.parked[i]).digest != q.parked[0].digest,
    ensures
        !parks(with_parked(q, p), q.parked[0].digest),
        parks(with_parked(q, p), p.digest),
{
    let d = q.parked[0].digest;
    let w = with_parked(q, p).parked;
    let grown = q.parked.push(p);
    assert(w =~= grown.skip(1));
    lemma_place(w, d);
    if place(w, d) < w.len() {
        let k = place(w, d);
        assert(w[k] == grown[k + 1]);
        if k + 1 < q.parked.len() {
            assert(grown[k + 1] == q.parked[k + 1]);
        }
    }
    lemma_place(w, p.digest);
    if place(w, p.digest) == w.len() {
        assert(w[w.len() - 1] == p);
    }
}

/// A released digest that was parked once is parked no more, and every other
/// digest stays as it was.
pub proof fn law_resolution_is_one_shot(q: ApprovalQueueView, digest: Seq<char>, other: Seq<char>)
    requires
        parks(q, digest),
        other != digest,
        forall|i: int, j: int|
            0 <= i < j < q.parked.len() ==> (#[trigger] q.parked[i]).digest != (
            #[trigger] q.parked[j]).digest,
    ensures
        !parks(released(q, digest), digest),
        parks(released(q, digest), other) == parks(q, other),
{
    let s = q.parked;
    let p = place(s, digest);
    let t = s.remove(p);
    lemma_place(s, digest);
    lemma_place(t, digest);
    lemma_place(s, other);
    lemma_place(t, other);
    let k = place(t, digest);
    if k < t.len() {
        if k < p {
            assert(t[k] == s[k]);
        } else {
            assert(t[k] == s[k + 1]);
        }
    }
    let a = place(s, other);
    if a < s.len() && place(t, other) == t.len() {
        if a < p {
            assert(t[a] == s[a]);
        } else {
            assert(t[a - 1] == s[a]);
        }
    }
    let b = place(t, other);
    if b < t.len() && a == s.len() {
        if b < p {
            assert(t[b] == s[b]);
        } else {
            assert(t[b] == s[b + 1]);
        }
    }
}

/// A parked approval joins the queue as the newest and the oldest leave past the
/// bound; a digest is parked exactly if an approval of it is in the queue.
pub proof fn law_the_newest_approvals_stay(
    q: ApprovalQueueView,
    p: ParkedApprovalView,
    digest: Seq<char>,
)
    requires
        queue_ok(q),
    ensures
        ({
            let after = with_parked(q, p).parked;
            let all = q.parked.push(p);
            &&& with_parked(q, p).bound == q.bound
            &&& after.len() == if all.len() <= q.bound {
                all.len()
            } else {
                q.bound
            }
            &&& forall|k: int|
                0 <= k < after.len() ==> #[trigger] after[k] == all[all.len() - after.len() + k]
        }),
        parks(q, digest) <==> exists|i: int|
            0 <= i < q.parked.len() && (#[trigger] q.parked[i]).digest == digest,
        parks(q, digest) ==> q.parked[place(q.parked, digest)].digest == digest,
{
    lemma_place(q.parked, digest);
    let k = place(q.parked, digest);
    if k < q.parked.len() {
        assert(q.parked[k].digest == digest);
    }
}

/// Releasing a digest takes its oldest approval out of the queue and leaves all
/// others in their order; a digest that is not parked releases nothing.
pub proof fn law_releases_take_one_approval(q: ApprovalQueueView, digest: Seq<char>)
    ensures
        !parks(q, digest) ==> released(q, digest) == q,
        parks(q, digest) ==> {
            let after = released(q, digest).parked;
            let k = place(q.parked, digest);
            &&& after.len() + 1 == q.parked.len()
            &&& q.parked[k].digest == digest
            &&& forall|i: int| 0 <= i < k ==> (#[trigger] q.parked[i]).digest != digest
            &&& forall|i: int| 0 <= i < k ==> #[trigger] after[i] == q.parked[i]
            &&& forall|i: int| k <= i < after.len() ==> #[trigger] after[i] == q.parked[i + 1]
        },
        released(q, digest).bound == q.bound,
{
    lemma_place(q.parked, digest);
}

} // verus!
