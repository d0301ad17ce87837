//! Reloads: of the configuration while the process runs, and of certificates.

use vstd::prelude::*;
use crate::gateway::config::ListenerConfig;
use crate::text::{same, texts};

verus! {

// ---------------------------------------------------------------------------
// Whether anything is applied
// ---------------------------------------------------------------------------

/// What the control plane says of the configuration file.
#[derive(Debug, Clone, Copy, PartialEq, Eq, Structural)]
pub enum Manager {
    /// There is no control plane.
    Unavailable,
    /// The file is what it was.
    Unchanged,
    /// The file has not even the shape of a configuration.
    Rejected,
    /// The file changed.
    Changed,
}

/// What the full check says of the new configuration.
#[derive(Debug, Clone, Copy, PartialEq, Eq, Structural)]
pub enum Candidate {
    Unparsable,
    Invalid,
    Valid,
}

/// What a reload does next.
#[derive(Debug, Clone, Copy, PartialEq, Eq, Structural)]
pub enum ReloadStep {
    /// Nothing: the live configuration stays.
    Keep,
    /// Counts a failure; the live configuration stays.
    Fail,
    /// Reads and checks the new configuration in full.
    Validate,
    /// Takes the file back, counts a failure; the live configuration stays.
    RollBack,
    /// Applies what can be applied.
    Apply,
}

/// What follows the answer of the control plane.
pub fn after_manager(manager: Manager) -> (r: ReloadStep)
    ensures
        r == match manager {
            Manager::Unavailable | Manager::Rejected => ReloadStep::Fail,
            Manager::Unchanged => ReloadStep::Keep,
            Manager::Changed => ReloadStep::Validate,
        },
{
    match manager {
        Manager::Unavailable => ReloadStep::Fail,
        Manager::Rejected => ReloadStep::Fail,
        Manager::Unchanged => ReloadStep::Keep,
        Manager::Changed => ReloadStep::Validate,
    }
}

/// What follows the full check: only a configuration that passes it is
/// applied, and one that does not is rolled back.
pub fn after_validation(candidate: Candidate) -> (r: ReloadStep)
    ensures
        r == match candidate {
            Candidate::Unparsable | Candidate::Invalid => ReloadStep::RollBack,
            Candidate::Valid => ReloadStep::Apply,
        },
{
    match candidate {
        Candidate::Unparsable => ReloadStep::RollBack,
        Candidate::Invalid => ReloadStep::RollBack,
        Candidate::Valid => ReloadStep::Apply,
    }
}

// ---------------------------------------------------------------------------
// What is rebuilt
// ---------------------------------------------------------------------------

/// A change that can be applied while the process runs.
#[derive(Debug)]
pub struct SwappableChange {
    /// The label of the changed field.
    pub field: String,
    /// The listener it belongs to.
    pub address: Option<String>,
    /// Whether the limit on requests per connection changed, which concerns
    /// every HTTP front.
    pub max_keepalive_requests: bool,
}

/// Each text once, in the order in which they first appear.
pub open spec fn once(s: Seq<Seq<char>>) -> Seq<Seq<char>>
    decreases s.len(),
{
    if s.len() == 0 {
        s
    } else {
        let before = once(s.drop_last());
        if before.contains(s.last()) {
            before
        } else {
            before.push(s.last())
        }
    }
}

/// The listeners that changes name, in order.
pub open spec fn named(changes: Seq<SwappableChange>) -> Seq<Seq<char>>
    decreases changes.len(),
{
    if changes.len() == 0 {
        Seq::empty()
    } else {
        match changes.last().address {
            Some(a) => named(changes.drop_last()).push(a@),
            None => named(changes.drop_last()),
        }
    }
}

/// Whether the limit on requests per connection changed.
pub open spec fn keepalive_changed(changes: Seq<SwappableChange>) -> bool {
    exists|i: int| 0 <= i < changes.len() && (#[trigger] changes[i]).max_keepalive_requests
}

/// The listeners that changes concern, in order.
pub open spec fn affected(changes: Seq<SwappableChange>, fronts: Seq<Seq<char>>) -> Seq<Seq<char>> {
    if keepalive_changed(changes) {
        named(changes) + fronts
    } else {
        named(changes)
    }
}

fn holds(list: &Vec<String>, text: &str) -> (r: bool)
    ensures
        r == texts(list@).contains(text@),
{
    let mut i: usize = 0;
    while i < list.len()
        invariant
            i <= list@.len(),
            forall|j: int| 0 <= j < i ==> texts(list@)[j] != text@,
        decreases list@.len() - i,
    {
        if same(&list[i], text) {
            assert(texts(list@)[i as int] == text@);
            return true;
        }
        assert(texts(list@)[i as int] != text@);
        i += 1;
    }
    false
}

fn add_once(list: &mut Vec<String>, text: &str, Ghost(seen): Ghost<Seq<Seq<char>>>)
    requires
        texts(old(list)@) == once(seen),
    ensures
        texts(final(list)@) == once(seen.push(text@)),
{
    assert(seen.push(text@).drop_last() =~= seen);
    if !holds(list, text) {
        list.push(text.to_owned());
        assert(texts(list@) =~= once(seen).push(text@));
    }
}

/// The listeners to rebuild: the union of those that changes concern, each of
/// them once, since one rebuild reads all that is new of a listener.
pub fn listeners_to_rebuild(changes: &Vec<SwappableChange>, fronts: &Vec<String>) -> (out: Vec<
    String,
>)
    ensures
        texts(out@) == once(affected(changes@, texts(fronts@))),
{
    let mut out: Vec<String> = Vec::new();
    let mut keepalive: bool = false;
    let mut i: usize = 0;
    assert(texts(out@) =~= once(named(changes@.take(0))));
    while i < changes.len()
        invariant
            i <= changes@.len(),
            texts(out@) == once(named(changes@.take(i as int))),
            keepalive == exists|j: int|
                0 <= j < i && (#[trigger] changes@[j]).max_keepalive_requests,
        decreases changes@.len() - i,
    {
        assert(changes@.take(i + 1).drop_last() =~= changes@.take(i as int));
        match &changes[i].address {
            Some(a) => {
                add_once(&mut out, a, Ghost(named(changes@.take(i as int))));
            },
            None => {},
        }
        if changes[i].max_keepalive_requests {
            keepalive = true;
        }
        i += 1;
    }
    assert(changes@.take(i as int) =~= changes@);
    if keepalive {
        let ghost start = named(changes@);
        let mut k: usize = 0;
        assert(start + texts(fronts@).take(0) =~= start);
        while k < fronts.len()
            invariant
                k <= fronts@.len(),
                texts(out@) == once(start + texts(fronts@).take(k as int)),
            decreases fronts@.len() - k,
        {
            add_once(&mut out, &fronts[k], Ghost(start + texts(fronts@).take(k as int)));
            assert((start + texts(fronts@).take(k as int)).push(fronts@[k as int]@) =~= start
                + texts(fronts@).take(k + 1));
            k += 1;
        }
        assert(texts(fronts@).take(k as int) =~= texts(fronts@));
    }
    out
}

/// No listener is rebuilt twice, and exactly the affected ones are rebuilt.
pub proof fn law_each_rebuilt_once(changes: Seq<SwappableChange>, fronts: Seq<Seq<char>>)
    ensures
        once(affected(changes, fronts)).no_duplicates(),
        forall|a: Seq<char>|
            once(affected(changes, fronts)).contains(a) <==> #[trigger] affected(
                changes,
                fronts,
            ).contains(a),
{
    lemma_once(affected(changes, fronts));
}

/// Whether some change belongs to this listener, or it is a running front and
/// the limit on requests per connection changed.
pub open spec fn has_cause(
    changes: Seq<SwappableChange>,
    fronts: Seq<String>,
    address: Seq<char>,
) -> bool {
    ||| exists|c: int|
        0 <= c < changes.len() && (#[trigger] changes[c]).address is Some && changes[c].address->0@
            == address
    ||| (exists|f: int| 0 <= f < fronts.len() && (#[trigger] fronts[f])@ == address) && exists|c: int|
        0 <= c < changes.len() && (#[trigger] changes[c]).max_keepalive_requests
}

/// What a reload rebuilds: every listener that a change belongs to, and every
/// running front as soon as the limit on requests per connection changed,
/// whether or not any change belongs to a listener. It rebuilds nothing else,
/// and nothing twice.
pub proof fn law_changes_reach_their_fronts(
    changes: Vec<SwappableChange>,
    fronts: Vec<String>,
    out: Vec<String>,
)
    requires
        call_ensures(listeners_to_rebuild, (&changes, &fronts), out),
    ensures
        forall|c: int|
            0 <= c < changes@.len() && (#[trigger] changes@[c]).address is Some ==> exists|k: int|
                0 <= k < out@.len() && (#[trigger] out@[k])@ == changes@[c].address->0@,
        forall|c: int, f: int|
            0 <= c < changes@.len() && 0 <= f < fronts@.len() && (
            #[trigger] changes@[c]).max_keepalive_requests ==> exists|k: int|
                0 <= k < out@.len() && (#[trigger] out@[k])@ == (#[trigger] fronts@[f])@,
        forall|k: int|
            0 <= k < out@.len() ==> has_cause(changes@, fronts@, (#[trigger] out@[k])@),
        forall|j: int, k: int|
            0 <= j < k < out@.len() ==> (#[trigger] out@[j])@ != (#[trigger] out@[k])@,
{
    let names = texts(fronts@);
    let all = affected(changes@, names);
    let got = texts(out@);
    assert(got == once(all));
    lemma_once(all);
    lemma_named(changes@);
    assert forall|a: Seq<char>| #[trigger] got.contains(a) implies exists|k: int|
        0 <= k < out@.len() && (#[trigger] out@[k])@ == a by {
        let k = choose|k: int| 0 <= k < got.len() && got[k] == a;
        assert(out@[k]@ == a);
    }
    assert forall|c: int|
        0 <= c < changes@.len() && (#[trigger] changes@[c]).address is Some implies exists|k: int|
            0 <= k < out@.len() && (#[trigger] out@[k])@ == changes@[c].address->0@ by {
        let a = changes@[c].address->0@;
        assert(named(changes@).contains(a));
        let i = choose|i: int| 0 <= i < named(changes@).len() && named(changes@)[i] == a;
        assert(all[i] == a);
        assert(all.contains(a));
        assert(got.contains(a));
    }
    assert forall|c: int, f: int|
        0 <= c < changes@.len() && 0 <= f < fronts@.len() && (
        #[trigger] changes@[c]).max_keepalive_requests implies exists|k: int|
            0 <= k < out@.len() && (#[trigger] out@[k])@ == (#[trigger] fronts@[f])@ by {
        assert(all[named(changes@).len() + f] == names[f]);
        assert(all.contains(fronts@[f]@));
        assert(got.contains(fronts@[f]@));
    }
    assert forall|k: int| 0 <= k < out@.len() implies has_cause(
        changes@,
        fronts@,
        (#[trigger] out@[k])@,
    ) by {
        let a = out@[k]@;
        assert(got[k] == a);
        assert(got.contains(a));
        assert(all.contains(a));
        let i = choose|i: int| 0 <= i < all.len() && all[i] == a;
        if i < named(changes@).len() {
            assert(named(changes@)[i] == a);
            assert(named(changes@).contains(a));
        } else {
            let f = i - named(changes@).len();
            assert(names[f] == fronts@[f]@);
            let c = choose|c: int|
                0 <= c < changes@.len() && (#[trigger] changes@[c]).max_keepalive_requests;
            assert(changes@[c].max_keepalive_requests && fronts@[f]@ == out@[k]@);
        }
    }
    assert forall|j: int, k: int| 0 <= j < k < out@.len() implies (#[trigger] out@[j])@ != (
    #[trigger] out@[k])@ by {
        assert(got[j] != got[k]);
    }
}

/// The named listeners are the addresses of the changes.
proof fn lemma_named(changes: Seq<SwappableChange>)
    ensures
        forall|c: int|
            0 <= c < changes.len() && (#[trigger] changes[c]).address is Some ==> named(
                changes,
            ).contains(changes[c].address->0@),
        forall|a: Seq<char>| #[trigger]
            named(changes).contains(a) ==> exists|c: int|
                0 <= c < changes.len() && (#[trigger] changes[c]).address is Some
                    && changes[c].address->0@ == a,
    decreases changes.len(),
{
    if changes.len() > 0 {
        let init = changes.drop_last();
        let last = changes.last();
        lemma_named(init);
        assert forall|c: int|
            0 <= c < changes.len() && (#[trigger] changes[c]).address is Some implies named(
            changes,
        ).contains(changes[c].address->0@) by {
            let a = changes[c].address->0@;
            if c < init.len() {
                assert(init[c] == changes[c]);
                assert(named(init).contains(a));
                let i = choose|i: int| 0 <= i < named(init).len() && named(init)[i] == a;
                assert(named(changes)[i] == a);
            } else {
                assert(named(changes)[named(init).len() as int] == a);
            }
        }
        assert forall|a: Seq<char>| #[trigger] named(changes).contains(a) implies exists|c: int|
            0 <= c < changes.len() && (#[trigger] changes[c]).address is Some
                && changes[c].address->0@ == a by {
            let i = choose|i: int| 0 <= i < named(changes).len() && named(changes)[i] == a;
            if i < named(init).len() {
                assert(named(init)[i] == a);
                assert(named(init).contains(a));
                let c = choose|c: int|
                    0 <= c < init.len() && (#[trigger] init[c]).address is Some
                        && init[c].address->0@ == a;
                assert(changes[c] == init[c]);
            } else {
                assert(changes[changes.len() - 1].address->0@ == a);
            }
        }
    }
}

proof fn lemma_once(s: Seq<Seq<char>>)
    ensures
        once(s).no_duplicates(),
        forall|a: Seq<char>| once(s).contains(a) <==> #[trigger] s.contains(a),
    decreases s.len(),
{
    if s.len() > 0 {
        let before = once(s.drop_last());
        lemma_once(s.drop_last());
        assert forall|a: Seq<char>| once(s).contains(a) <==> #[trigger] s.contains(a) by {
            if s.contains(a) {
                let i = choose|i: int| 0 <= i < s.len() && s[i] == a;
                if i < s.len() - 1 {
                    assert(s.drop_last()[i] == a);
                    assert(s.drop_last().contains(a));
                    let k = choose|k: int| 0 <= k < before.len() && before[k] == a;
                    assert(once(s)[k] == a);
                } else if !before.contains(s.last()) {
                    assert(once(s)[before.len() as int] == a);
                }
            }
            if once(s).contains(a) {
                let k = choose|k: int| 0 <= k < once(s).len() && once(s)[k] == a;
                if k < before.len() {
                    assert(before[k] == a);
                    assert(before.contains(a));
                    assert(s.drop_last().contains(a));
                    let i = choose|i: int| 0 <= i < s.drop_last().len() && s.drop_last()[i] == a;
                    assert(s[i] == a);
                } else {
                    assert(s[s.len() - 1] == a);
                }
            }
        }
    }
}

/// What a listener that is to be rebuilt comes to.
#[derive(Debug, Clone, Copy, PartialEq, Eq, Structural)]
pub enum Target {
    /// It is no longer configured.
    Gone,
    /// It runs nothing that can be replaced; the change needs a restart.
    NoHandle,
    /// The configured listener and the running front at these positions.
    Rebuild { listener: usize, front: usize },
}

/// The first position of a text.
pub open spec fn first_of(s: Seq<Seq<char>>, text: Seq<char>) -> Option<int>
    decreases s.len(),
{
    if s.len() == 0 {
        None
    } else if s[0] == text {
        Some(0)
    } else {
        match first_of(s.skip(1), text) {
            Some(i) => Some(i + 1),
            None => None,
        }
    }
}

/// The addresses of listeners.
pub open spec fn addresses_of(listeners: Seq<ListenerConfig>) -> Seq<Seq<char>> {
    listeners.map_values(|l: ListenerConfig| l.address@)
}

proof fn lemma_first_of(s: Seq<Seq<char>>, text: Seq<char>, k: int)
    requires
        0 <= k <= s.len(),
        forall|j: int| 0 <= j < k ==> s[j] != text,
    ensures
        first_of(s, text) == match first_of(s.skip(k), text) {
            Some(i) => Some(i + k),
            None => None,
        },
    decreases k,
{
    if k == 0 {
        assert(s.skip(0) =~= s);
    } else {
        assert(s[0] != text);
        assert forall|j: int| 0 <= j < k - 1 implies s.skip(1)[j] != text by {
            assert(s[j + 1] != text);
        }
        lemma_first_of(s.skip(1), text, k - 1);
        assert(s.skip(1).skip(k - 1) =~= s.skip(k));
    }
}

/// What a listener that is to be rebuilt comes to: it is looked for among the
/// configured listeners, then among the running fronts.
pub open spec fn target_of(
    address: Seq<char>,
    listeners: Seq<Seq<char>>,
    fronts: Seq<Seq<char>>,
) -> Target {
    match (first_of(listeners, address), first_of(fronts, address)) {
        (None, _) => Target::Gone,
        (Some(_), None) => Target::NoHandle,
        (Some(l), Some(f)) => Target::Rebuild { listener: l as usize, front: f as usize },
    }
}

/// What a listener that is to be rebuilt comes to.
pub fn rebuild_target(address: &str, listeners: &Vec<ListenerConfig>, fronts: &Vec<String>) -> (r:
    Target)
    ensures
        r == target_of(address@, addresses_of(listeners@), texts(fronts@)),
{
    let mut l: usize = 0;
    while l < listeners.len() && !same(&listeners[l].address, address)
        invariant
            l <= listeners@.len(),
            forall|j: int| 0 <= j < l ==> addresses_of(listeners@)[j] != address@,
        decreases listeners@.len() - l,
    {
        assert(addresses_of(listeners@)[l as int] != address@);
        l += 1;
    }
    proof {
        lemma_first_of(addresses_of(listeners@), address@, l as int);
        if l < listeners.len() {
            assert(addresses_of(listeners@).skip(l as int)[0] == address@);
        }
    }
    if l == listeners.len() {
        return Target::Gone;
    }
    let mut f: usize = 0;
    while f < fronts.len() && !same(&fronts[f], address)
        invariant
            f <= fronts@.len(),
            forall|j: int| 0 <= j < f ==> texts(fronts@)[j] != address@,
        decreases fronts@.len() - f,
    {
        assert(texts(fronts@)[f as int] != address@);
        f += 1;
    }
    proof {
        lemma_first_of(texts(fronts@), address@, f as int);
        if f < fronts.len() {
            assert(texts(fronts@).skip(f as int)[0] == address@);
        }
    }
    if f == fronts.len() {
        return Target::NoHandle;
    }
    Target::Rebuild { listener: l, front: f }
}

/// What became of a listener that was to be rebuilt.
#[derive(Debug, Clone, Copy, PartialEq, Eq, Structural)]
pub enum Rebuilt {
    Gone,
    NoHandle,
    Swapped,
    Failed,
}

/// How many of the outcomes are `o`.
pub open spec fn count_of(outcomes: Seq<Rebuilt>, o: Rebuilt) -> nat
    decreases outcomes.len(),
{
    if outcomes.len() == 0 {
        0
    } else {
        count_of(outcomes.drop_last(), o) + if outcomes.last() == o {
            1nat
        } else {
            0
        }
    }
}

/// What a pass over the affected listeners adds to the metrics.
#[derive(Debug, Clone, Copy, PartialEq, Eq, Structural)]
pub struct ReloadReport {
    /// Fronts that were replaced.
    pub applied: usize,
    /// Fronts whose rebuild failed; the old one stays. Each counts as a
    /// failed reload.
    pub failed: usize,
    /// Changes without a front, counted as needing a restart.
    pub no_handle: usize,
    /// Whether the pass counts as a success and the version goes up.
    pub succeeded: bool,
}

/// The label under which changes without a front are counted.
pub const NO_HANDLE_LABEL: &'static str = "listener.l7.no_handle";

/// Sums up a pass. It succeeded when at least one front was replaced; a pass
/// with nothing but changes that need a restart is no success.
pub fn reload_report(outcomes: &Vec<Rebuilt>) -> (r: ReloadReport)
    ensures
        r.applied == count_of(outcomes@, Rebuilt::Swapped),
        r.failed == count_of(outcomes@, Rebuilt::Failed),
        r.no_handle == count_of(outcomes@, Rebuilt::NoHandle),
        r.succeeded == (count_of(outcomes@, Rebuilt::Swapped) > 0),
{
    let mut applied: usize = 0;
    let mut failed: usize = 0;
    let mut no_handle: usize = 0;
    let mut i: usize = 0;
    while i < outcomes.len()
        invariant
            i <= outcomes@.len(),
            applied == count_of(outcomes@.take(i as int), Rebuilt::Swapped),
            failed == count_of(outcomes@.take(i as int), Rebuilt::Failed),
            no_handle == count_of(outcomes@.take(i as int), Rebuilt::NoHandle),
            applied + failed + no_handle <= i,
        decreases outcomes@.len() - i,
    {
        assert(outcomes@.take(i + 1).drop_last() =~= outcomes@.take(i as int));
        match outcomes[i] {
            Rebuilt::Gone => {},
            Rebuilt::NoHandle => {
                no_handle += 1;
            },
            Rebuilt::Swapped => {
                applied += 1;
            },
            Rebuilt::Failed => {
                failed += 1;
            },
        }
        i += 1;
    }
    assert(outcomes@.take(i as int) =~= outcomes@);
    ReloadReport { applied, failed, no_handle, succeeded: applied > 0 }
}

// ---------------------------------------------------------------------------
// A reload from the signal to its end
// ---------------------------------------------------------------------------

/// Where a reload stands.
#[derive(Debug, Clone, Copy, PartialEq, Eq, Structural)]
pub enum ReloadStage {
    /// The control plane is asked for the file.
    Asking,
    /// The new configuration is checked in full.
    Checking,
    /// The affected fronts are rebuilt, one after the other.
    Rebuilding,
    /// The pass is complete: the new configuration is the live one.
    Committed,
    /// Nothing was applied: the old configuration stays the live one.
    Kept,
}

/// A reload of the configuration.
#[derive(Debug)]
pub struct Reload {
    stage: ReloadStage,
    queue: Vec<String>,
    outcomes: Vec<Rebuilt>,
}

/// A reload as its stage, the listeners to rebuild, and what became of those
/// that it is done with.
pub struct ReloadView {
    pub stage: ReloadStage,
    pub queue: Seq<Seq<char>>,
    pub outcomes: Seq<Rebuilt>,
}

impl View for Reload {
    type V = ReloadView;

    closed spec fn view(&self) -> ReloadView {
        ReloadView {
            stage: self.stage,
            queue: texts(self.queue@),
            outcomes: self.outcomes@,
        }
    }
}

impl ReloadView {
    /// Outcomes are there for the first listeners of the queue, and for all of
    /// them once the pass is complete.
    pub open spec fn wf(self) -> bool {
        &&& self.outcomes.len() <= self.queue.len()
        &&& self.stage == ReloadStage::Committed ==> self.outcomes.len() == self.queue.len()
        &&& self.stage == ReloadStage::Asking || self.stage == ReloadStage::Checking || self.stage
            == ReloadStage::Kept ==> self.queue.len() == 0
    }
}

/// The first position from `at` on whose listener has a front to rebuild; the
/// length of the queue when there is none.
pub open spec fn next_front(
    queue: Seq<Seq<char>>,
    at: int,
    listeners: Seq<Seq<char>>,
    fronts: Seq<Seq<char>>,
) -> int
    decreases queue.len() - at,
{
    if at >= queue.len() {
        queue.len() as int
    } else if target_of(queue[at], listeners, fronts) is Rebuild {
        at
    } else {
        next_front(queue, at + 1, listeners, fronts)
    }
}

/// What becomes of a listener without a front to rebuild.
pub open spec fn passed_over(t: Target) -> Rebuilt {
    if t is Gone {
        Rebuilt::Gone
    } else {
        Rebuilt::NoHandle
    }
}

/// The listeners that one change concerns.
pub open spec fn concerned(change: SwappableChange, fronts: Seq<Seq<char>>) -> Seq<Seq<char>> {
    let own = match change.address {
        Some(a) => seq![a@],
        None => Seq::empty(),
    };
    if change.max_keepalive_requests {
        own + fronts
    } else {
        own
    }
}

impl ReloadView {
    /// What became of a listener, once the reload is done with it.
    pub open spec fn outcome_of(self, address: Seq<char>) -> Option<Rebuilt> {
        match first_of(self.queue, address) {
            Some(i) => if i < self.outcomes.len() {
                Some(self.outcomes[i])
            } else {
                None
            },
            None => None,
        }
    }

    /// Whether some of the listeners came to `o`.
    pub open spec fn some_came_to(self, listeners: Seq<Seq<char>>, o: Rebuilt) -> bool {
        exists|i: int|
            0 <= i < listeners.len() && self.outcome_of(#[trigger] listeners[i]) == Some(o)
    }

    /// Whether a change is live: some front that it concerns was replaced, and
    /// none kept its old proxies because the rebuild failed.
    pub open spec fn is_live(self, change: SwappableChange, fronts: Seq<Seq<char>>) -> bool {
        &&& self.some_came_to(concerned(change, fronts), Rebuilt::Swapped)
        &&& !self.some_came_to(concerned(change, fronts), Rebuilt::Failed)
    }

    /// The fields of the changes that are live, in order.
    pub open spec fn live_fields(
        self,
        changes: Seq<SwappableChange>,
        fronts: Seq<Seq<char>>,
    ) -> Seq<Seq<char>>
        decreases changes.len(),
    {
        if changes.len() == 0 {
            Seq::empty()
        } else {
            let before = self.live_fields(changes.drop_last(), fronts);
            if self.is_live(changes.last(), fronts) {
                before.push(changes.last().field@)
            } else {
                before
            }
        }
    }
}

impl Reload {
    /// A reload that starts.
    pub fn new() -> (r: Self)
        ensures
            r@ == (ReloadView {
                stage: ReloadStage::Asking,
                queue: Seq::empty(),
                outcomes: Seq::empty(),
            }),
            r@.wf(),
    {
        let r = Reload { stage: ReloadStage::Asking, queue: Vec::new(), outcomes: Vec::new() };
        assert(r@.queue =~= Seq::empty());
        assert(r@.outcomes =~= Seq::empty());
        r
    }

    /// Where the reload stands.
    pub fn stage(&self) -> (r: ReloadStage)
        ensures
            r == self@.stage,
    {
        self.stage
    }

    /// Takes in the answer of the control plane.
    pub fn on_manager(&mut self, manager: Manager) -> (step: ReloadStep)
        requires
            old(self)@.stage == ReloadStage::Asking,
            old(self)@.wf(),
        ensures
            call_ensures(after_manager, (manager,), step),
            final(self)@ == (ReloadView {
                stage: if manager == Manager::Changed {
                    ReloadStage::Checking
                } else {
                    ReloadStage::Kept
                },
                ..old(self)@
            }),
            final(self)@.wf(),
    {
        self.stage = if manager == Manager::Changed {
            ReloadStage::Checking
        } else {
            ReloadStage::Kept
        };
        after_manager(manager)
    }

    /// Takes in the result of the full check. Of a configuration that passes,
    /// the listeners to rebuild are queued.
    pub fn on_checked(
        &mut self,
        candidate: Candidate,
        changes: &Vec<SwappableChange>,
        fronts: &Vec<String>,
    ) -> (step: ReloadStep)
        requires
            old(self)@.stage == ReloadStage::Checking,
            old(self)@.wf(),
        ensures
            call_ensures(after_validation, (candidate,), step),
            final(self)@ == if candidate == Candidate::Valid {
                ReloadView {
                    stage: ReloadStage::Rebuilding,
                    queue: once(affected(changes@, texts(fronts@))),
                    ..old(self)@
                }
            } else {
                ReloadView { stage: ReloadStage::Kept, ..old(self)@ }
            },
            final(self)@.wf(),
    {
        if candidate == Candidate::Valid {
            self.stage = ReloadStage::Rebuilding;
            self.queue = listeners_to_rebuild(changes, fronts);
        } else {
            self.stage = ReloadStage::Kept;
        }
        after_validation(candidate)
    }

    /// The configured listener and the running front to rebuild next.
    /// Listeners that are gone or have no front are passed over. Without
    /// another front the pass is complete.
    pub fn next(&mut self, listeners: &Vec<ListenerConfig>, fronts: &Vec<String>) -> (r: Option<
        (usize, usize),
    >)
        requires
            old(self)@.stage == ReloadStage::Rebuilding,
            old(self)@.wf(),
        ensures
            ({
                let names = addresses_of(listeners@);
                let from = old(self)@.outcomes.len() as int;
                let to = next_front(old(self)@.queue, from, names, texts(fronts@));
                &&& final(self)@.queue == old(self)@.queue
                &&& final(self)@.outcomes == old(self)@.outcomes + Seq::new(
                    (to - from) as nat,
                    |i: int| passed_over(target_of(old(self)@.queue[from + i], names, texts(fronts@))),
                )
                &&& match r {
                    Some((l, f)) => {
                        &&& to < old(self)@.queue.len()
                        &&& target_of(old(self)@.queue[to], names, texts(fronts@))
                            == (Target::Rebuild { listener: l, front: f })
                        &&& final(self)@.stage == ReloadStage::Rebuilding
                    },
                    None => {
                        &&& to == old(self)@.queue.len()
                        &&& final(self)@.stage == ReloadStage::Committed
                    },
                }
            }),
            final(self)@.wf(),
    {
        let ghost queue = self@.queue;
        let ghost names = addresses_of(listeners@);
        let ghost running = texts(fronts@);
        let ghost before = self@.outcomes;
        let ghost from = before.len() as int;
        let ghost to = next_front(queue, from, names, running);
        proof {
            lemma_next_front(queue, from, names, running);
        }
        while self.outcomes.len() < self.queue.len()
            invariant
                self@.stage == ReloadStage::Rebuilding,
                self@.queue == queue,
                queue == old(self)@.queue,
                before == old(self)@.outcomes,
                names == addresses_of(listeners@),
                running == texts(fronts@),
                from == before.len(),
                from <= self.outcomes@.len() <= queue.len(),
                to == next_front(queue, from, names, running),
                to == next_front(queue, self.outcomes@.len() as int, names, running),
                self.outcomes@.len() <= to,
                self@.outcomes =~= before + Seq::new(
                    (self.outcomes@.len() - from) as nat,
                    |i: int| passed_over(target_of(queue[from + i], names, running)),
                ),
            decreases queue.len() - self.outcomes@.len(),
        {
            let at: usize = self.outcomes.len();
            assert(queue[at as int] == self.queue@[at as int]@);
            match rebuild_target(&self.queue[at], listeners, fronts) {
                Target::Rebuild { listener, front } => {
                    return Some((listener, front));
                },
                Target::Gone => {
                    self.outcomes.push(Rebuilt::Gone);
                },
                Target::NoHandle => {
                    self.outcomes.push(Rebuilt::NoHandle);
                },
            }
            proof {
                lemma_next_front(queue, at + 1, names, running);
            }
        }
        self.stage = ReloadStage::Committed;
        None
    }

    /// A front was rebuilt and replaced, or its rebuild failed and the old one
    /// stays.
    pub fn on_rebuilt(&mut self, replaced: bool)
        requires
            old(self)@.stage == ReloadStage::Rebuilding,
            old(self)@.wf(),
            old(self)@.outcomes.len() < old(self)@.queue.len(),
        ensures
            final(self)@ == (ReloadView {
                outcomes: old(self)@.outcomes.push(
                    if replaced {
                        Rebuilt::Swapped
                    } else {
                        Rebuilt::Failed
                    },
                ),
                ..old(self)@
            }),
            final(self)@.wf(),
    {
        self.outcomes.push(
            if replaced {
                Rebuilt::Swapped
            } else {
                Rebuilt::Failed
            },
        );
    }

    /// What the reload adds to the metrics.
    pub fn report(&self) -> (r: ReloadReport)
        ensures
            r.applied == count_of(self@.outcomes, Rebuilt::Swapped),
            r.failed == count_of(self@.outcomes, Rebuilt::Failed),
            r.no_handle == count_of(self@.outcomes, Rebuilt::NoHandle),
            r.succeeded == (count_of(self@.outcomes, Rebuilt::Swapped) > 0),
    {
        reload_report(&self.outcomes)
    }

    fn outcome(&self, address: &str) -> (r: Option<Rebuilt>)
        ensures
            r == self@.outcome_of(address@),
    {
        let mut i: usize = 0;
        while i < self.queue.len() && !same(&self.queue[i], address)
            invariant
                i <= self.queue@.len(),
                forall|j: int| 0 <= j < i ==> self@.queue[j] != address@,
            decreases self.queue@.len() - i,
        {
            assert(self@.queue[i as int] != address@);
            i += 1;
        }
        proof {
            lemma_first_of(self@.queue, address@, i as int);
            if i < self.queue.len() {
                assert(self@.queue.skip(i as int)[0] == address@);
            }
        }
        if i < self.queue.len() && i < self.outcomes.len() {
            Some(self.outcomes[i])
        } else {
            None
        }
    }

    fn live(&self, change: &SwappableChange, fronts: &Vec<String>) -> (r: bool)
        ensures
            r == self@.is_live(*change, texts(fronts@)),
    {
        let ghost running = texts(fronts@);
        let ghost all = concerned(*change, running);
        let ghost own = concerned(
            SwappableChange { max_keepalive_requests: false, ..*change },
            running,
        );
        let mut swapped: bool = false;
        let mut failed: bool = false;
        match &change.address {
            Some(a) => {
                let o = self.outcome(a);
                swapped = o == Some(Rebuilt::Swapped);
                failed = o == Some(Rebuilt::Failed);
                assert(own[0] == a@);
            },
            None => {},
        }
        assert(swapped == self@.some_came_to(own, Rebuilt::Swapped));
        assert(failed == self@.some_came_to(own, Rebuilt::Failed));
        if change.max_keepalive_requests {
            let mut i: usize = 0;
            assert(own + running.take(0) =~= own);
            while i < fronts.len()
                invariant
                    i <= fronts@.len(),
                    running == texts(fronts@),
                    swapped == self@.some_came_to(own + running.take(i as int), Rebuilt::Swapped),
                    failed == self@.some_came_to(own + running.take(i as int), Rebuilt::Failed),
                decreases fronts@.len() - i,
            {
                let o = self.outcome(&fronts[i]);
                let ghost seen = own + running.take(i as int);
                let ghost next = own + running.take(i + 1);
                assert(next =~= seen.push(fronts@[i as int]@));
                proof {
                    lemma_some_push(self@, seen, fronts@[i as int]@, Rebuilt::Swapped);
                    lemma_some_push(self@, seen, fronts@[i as int]@, Rebuilt::Failed);
                }
                swapped = swapped || o == Some(Rebuilt::Swapped);
                failed = failed || o == Some(Rebuilt::Failed);
                i += 1;
            }
            assert(running.take(i as int) =~= running);
            assert(own + running =~= all);
        } else {
            assert(own =~= all);
        }
        swapped && !failed
    }

    /// The fields of the changes that are live, one for each change: these
    /// count as applied. A change whose rebuild failed does not.
    pub fn applied_fields(&self, changes: &Vec<SwappableChange>, fronts: &Vec<String>) -> (out: Vec<
        String,
    >)
        ensures
            texts(out@) == self@.live_fields(changes@, texts(fronts@)),
    {
        let mut out: Vec<String> = Vec::new();
        let mut i: usize = 0;
        assert(texts(out@) =~= self@.live_fields(changes@.take(0), texts(fronts@)));
        while i < changes.len()
            invariant
                i <= changes@.len(),
                texts(out@) == self@.live_fields(changes@.take(i as int), texts(fronts@)),
            decreases changes@.len() - i,
        {
            assert(changes@.take(i + 1).drop_last() =~= changes@.take(i as int));
            if self.live(&changes[i], fronts) {
                let ghost before = out@;
                out.push(changes[i].field.clone());
                assert(texts(out@) =~= texts(before).push(changes@[i as int].field@));
            }
            i += 1;
        }
        assert(changes@.take(i as int) =~= changes@);
        out
    }
}

proof fn lemma_some_push(v: ReloadView, seen: Seq<Seq<char>>, a: Seq<char>, o: Rebuilt)
    ensures
        v.some_came_to(seen.push(a), o) == (v.some_came_to(seen, o) || v.outcome_of(a) == Some(o)),
{
    let next = seen.push(a);
    assert(next[seen.len() as int] == a);
    if v.some_came_to(seen, o) {
        let i = choose|i: int| 0 <= i < seen.len() && v.outcome_of(#[trigger] seen[i]) == Some(o);
        assert(next[i] == seen[i]);
    }
    if v.some_came_to(next, o) {
        let i = choose|i: int| 0 <= i < next.len() && v.outcome_of(#[trigger] next[i]) == Some(o);
        if i < seen.len() {
            assert(seen[i] == next[i]);
        }
    }
}

/// Only what is live counts as applied: a change of one listener counts exactly
/// when that listener was replaced, and a pass that replaced nothing counts no
/// change at all and is no success.
pub proof fn law_only_live_changes_count(
    end: ReloadView,
    changes: Seq<SwappableChange>,
    fronts: Seq<Seq<char>>,
)
    ensures
        forall|i: int|
            0 <= i < changes.len() && !changes[i].max_keepalive_requests ==> (end.is_live(
                #[trigger] changes[i],
                fronts,
            ) <==> (changes[i].address matches Some(a) && end.outcome_of(a@) == Some(
                Rebuilt::Swapped,
            ))),
        count_of(end.outcomes, Rebuilt::Swapped) == 0 ==> end.live_fields(changes, fronts).len() == 0,
    decreases changes.len(),
{
    assert forall|i: int| 0 <= i < changes.len() && !changes[i].max_keepalive_requests implies (
    end.is_live(#[trigger] changes[i], fronts) <==> (changes[i].address matches Some(a)
        && end.outcome_of(a@) == Some(Rebuilt::Swapped))) by {
        let all = concerned(changes[i], fronts);
        match changes[i].address {
            Some(a) => {
                assert(all[0] == a@);
            },
            None => {},
        }
    }
    if changes.len() > 0 {
        law_only_live_changes_count(end, changes.drop_last(), fronts);
        if count_of(end.outcomes, Rebuilt::Swapped) == 0 && end.is_live(changes.last(), fronts) {
            let all = concerned(changes.last(), fronts);
            let i = choose|i: int|
                0 <= i < all.len() && end.outcome_of(#[trigger] all[i]) == Some(Rebuilt::Swapped);
            let k = first_of(end.queue, all[i]).unwrap();
            lemma_first_of_bounds(end.queue, all[i]);
            lemma_count_pos(end.outcomes, k);
        }
    }
}

proof fn lemma_first_of_bounds(s: Seq<Seq<char>>, text: Seq<char>)
    ensures
        first_of(s, text) matches Some(i) ==> 0 <= i < s.len() && s[i] == text,
    decreases s.len(),
{
    if s.len() > 0 && s[0] != text {
        lemma_first_of_bounds(s.skip(1), text);
    }
}

proof fn lemma_count_pos(outcomes: Seq<Rebuilt>, k: int)
    requires
        0 <= k < outcomes.len(),
    ensures
        count_of(outcomes, outcomes[k]) > 0,
    decreases outcomes.len(),
{
    if k < outcomes.len() - 1 {
        assert(outcomes.drop_last()[k] == outcomes[k]);
        lemma_count_pos(outcomes.drop_last(), k);
    }
}

proof fn lemma_next_front(
    queue: Seq<Seq<char>>,
    at: int,
    listeners: Seq<Seq<char>>,
    fronts: Seq<Seq<char>>,
)
    requires
        0 <= at <= queue.len(),
    ensures
        at <= next_front(queue, at, listeners, fronts) <= queue.len(),
    decreases queue.len() - at,
{
    if at < queue.len() {
        lemma_next_front(queue, at + 1, listeners, fronts);
    }
}

/// Every failure before the fronts are rebuilt leaves all of them alone: a
/// reload whose file the control plane does not hand over, or whose
/// configuration does not pass the full check, ends with nothing rebuilt and
/// the old configuration live.
pub proof fn law_failure_applies_nothing(
    start: ReloadView,
    manager: Manager,
    asked: ReloadView,
    candidate: Candidate,
    changes: Seq<SwappableChange>,
    fronts: Seq<Seq<char>>,
    checked: ReloadView,
)
    requires
        start == (ReloadView {
            stage: ReloadStage::Asking,
            queue: Seq::empty(),
            outcomes: Seq::empty(),
        }),
        asked == (ReloadView {
            stage: if manager == Manager::Changed {
                ReloadStage::Checking
            } else {
                ReloadStage::Kept
            },
            ..start
        }),
        asked.stage == ReloadStage::Checking ==> checked == if candidate == Candidate::Valid {
            ReloadView {
                stage: ReloadStage::Rebuilding,
                queue: once(affected(changes, fronts)),
                ..asked
            }
        } else {
            ReloadView { stage: ReloadStage::Kept, ..asked }
        },
        manager != Manager::Changed || candidate != Candidate::Valid,
    ensures
        ({
            let end = if asked.stage == ReloadStage::Kept {
                asked
            } else {
                checked
            };
            &&& end.stage == ReloadStage::Kept
            &&& end.queue.len() == 0
            &&& count_of(end.outcomes, Rebuilt::Swapped) == 0
            &&& count_of(end.outcomes, Rebuilt::Failed) == 0
        }),
{
}

// ---------------------------------------------------------------------------
// Certificates
// ---------------------------------------------------------------------------

/// How many certificates were reloaded, and how many kept their old bundle.
/// An entry is the reason of its failure, if it failed.
pub fn reload_all_tls(results: &Vec<Option<String>>) -> (r: (usize, usize))
    ensures
        r.0 == results@.filter(|e: Option<String>| e is None).len(),
        r.0 + r.1 == results@.len(),
{
    let mut ok: usize = 0;
    let mut fail: usize = 0;
    let mut i: usize = 0;
    proof {
        reveal(Seq::filter);
    }
    while i < results.len()
        invariant
            i <= results@.len(),
            ok == results@.take(i as int).filter(|e: Option<String>| e is None).len(),
            ok + fail == i,
        decreases results@.len() - i,
    {
        reveal(Seq::filter);
        assert(results@.take(i + 1).drop_last() =~= results@.take(i as int));
        match &results[i] {
            None => {
                ok += 1;
            },
            Some(_) => {
                fail += 1;
            },
        }
        i += 1;
    }
    assert(results@.take(i as int) =~= results@);
    (ok, fail)
}

/// The moment of a reload as the gauge holds it: seconds since 1970, zero when
/// the clock stands before that.
pub fn loaded_at(seconds: Option<u64>) -> (r: i64)
    ensures
        r == match seconds {
            None => 0,
            Some(s) => if s <= i64::MAX {
                s as int
            } else {
                i64::MAX as int
            },
        },
{
    match seconds {
        None => 0,
        Some(s) => if s <= 0x7fff_ffff_ffff_ffff {
            s as i64
        } else {
            i64::MAX
        },
    }
}

// ---------------------------------------------------------------------------
// Laws
// ---------------------------------------------------------------------------

/// What the reload does after each answer: the running configuration is left
/// alone unless the manager reports a change and the candidate is valid, and an
/// invalid candidate is rolled back.
pub proof fn law_only_valid_changes_apply(
    manager: Manager,
    a: ReloadStep,
    candidate: Candidate,
    b: ReloadStep,
)
    requires
        call_ensures(after_manager, (manager,), a),
        call_ensures(after_validation, (candidate,), b),
    ensures
        a == ReloadStep::Validate <==> manager == Manager::Changed,
        a == ReloadStep::Keep <==> manager == Manager::Unchanged,
        a == ReloadStep::Fail <==> manager == Manager::Unavailable || manager == Manager::Rejected,
        b == ReloadStep::Apply <==> candidate == Candidate::Valid,
        b == ReloadStep::RollBack <==> candidate == Candidate::Unparsable || candidate
            == Candidate::Invalid,
{
}

/// Whether a listener has an address.
pub open spec fn is_configured(listeners: Seq<ListenerConfig>, address: Seq<char>) -> bool {
    exists|i: int| 0 <= i < listeners.len() && (#[trigger] listeners[i]).address@ == address
}

/// Whether a front runs at an address.
pub open spec fn is_running(fronts: Seq<String>, address: Seq<char>) -> bool {
    exists|i: int| 0 <= i < fronts.len() && (#[trigger] fronts[i])@ == address
}

/// What a listener comes to: it is gone when none has its address, without a
/// handle when no front runs there, and else both are named, the first of each.
pub proof fn law_target_is_found(
    address: &str,
    listeners: Vec<ListenerConfig>,
    fronts: Vec<String>,
    r: Target,
)
    requires
        call_ensures(rebuild_target, (address, &listeners, &fronts), r),
    ensures
        is_target(address@, listeners@, fronts@, r),
{
    lemma_target(address@, listeners, fronts);
}

/// That a listener comes to a target.
pub open spec fn is_target(
    address: Seq<char>,
    listeners: Seq<ListenerConfig>,
    fronts: Seq<String>,
    r: Target,
) -> bool {
    &&& r is Gone <==> !is_configured(listeners, address)
    &&& r is NoHandle <==> is_configured(listeners, address) && !is_running(fronts, address)
    &&& r matches Target::Rebuild { listener, front } ==> {
        &&& listener < listeners.len()
        &&& listeners[listener as int].address@ == address
        &&& forall|i: int| 0 <= i < listener ==> (#[trigger] listeners[i]).address@ != address
        &&& front < fronts.len()
        &&& fronts[front as int]@ == address
        &&& forall|i: int| 0 <= i < front ==> (#[trigger] fronts[i])@ != address
    }
}

proof fn lemma_target(address: Seq<char>, listeners: Vec<ListenerConfig>, fronts: Vec<String>)
    ensures
        is_target(
            address,
            listeners@,
            fronts@,
            target_of(address, addresses_of(listeners@), texts(fronts@)),
        ),
{
    let names = addresses_of(listeners@);
    let running = texts(fronts@);
    lemma_first_is(names, address);
    lemma_first_is(running, address);
    assert(names.len() == listeners.len() && running.len() == fronts.len());
    assert forall|i: int| 0 <= i < names.len() implies #[trigger] names[i]
        == listeners@[i].address@ by {}
    assert forall|i: int| 0 <= i < running.len() implies #[trigger] running[i] == fronts@[i]@ by {}
    if first_of(names, address) is None {
        assert forall|i: int| 0 <= i < names.len() implies (#[trigger] listeners@[i]).address@
            != address by {
            assert(names[i] != address);
        }
    } else {
        let l = first_of(names, address)->0;
        assert(listeners@[l].address@ == names[l]);
        assert forall|i: int| 0 <= i < l implies (#[trigger] listeners@[i]).address@ != address by {
            assert(names[i] != address);
        }
    }
    if first_of(running, address) is None {
        assert forall|i: int| 0 <= i < running.len() implies (#[trigger] fronts@[i])@ != address by {
            assert(running[i] != address);
        }
    } else {
        let f = first_of(running, address)->0;
        assert(fronts@[f]@ == running[f]);
        assert forall|i: int| 0 <= i < f implies (#[trigger] fronts@[i])@ != address by {
            assert(running[i] != address);
        }
    }
}

proof fn lemma_first_is(s: Seq<Seq<char>>, text: Seq<char>)
    ensures
        first_of(s, text) is None ==> forall|i: int| 0 <= i < s.len() ==> #[trigger] s[i] != text,
        first_of(s, text) matches Some(k) ==> 0 <= k < s.len() && s[k] == text && forall|i: int|
            0 <= i < k ==> #[trigger] s[i] != text,
    decreases s.len(),
{
    if s.len() > 0 && s[0] != text {
        lemma_first_is(s.skip(1), text);
        match first_of(s.skip(1), text) {
            Some(k) => {
                assert(s.skip(1)[k] == s[k + 1]);
                assert forall|i: int| 0 <= i < k + 1 implies #[trigger] s[i] != text by {
                    if i > 0 {
                        assert(s.skip(1)[i - 1] == s[i]);
                    }
                }
            },
            None => {
                assert forall|i: int| 0 <= i < s.len() implies #[trigger] s[i] != text by {
                    if i > 0 {
                        assert(s.skip(1)[i - 1] == s[i]);
                    }
                }
            },
        }
    }
}

/// What a report counts: one more outcome adds one to its own count and to no
/// other, and the reload has succeeded exactly when some listener was replaced.
pub proof fn law_report_counts(
    before: Vec<Rebuilt>,
    after: Vec<Rebuilt>,
    o: Rebuilt,
    x: ReloadReport,
    y: ReloadReport,
)
    requires
        call_ensures(reload_report, (&before,), x),
        call_ensures(reload_report, (&after,), y),
        after@ == before@.push(o),
    ensures
        before@.len() == 0 ==> x.applied == 0 && x.failed == 0 && x.no_handle == 0,
        y.applied == x.applied + if o == Rebuilt::Swapped {
            1int
        } else {
            0
        },
        y.failed == x.failed + if o == Rebuilt::Failed {
            1int
        } else {
            0
        },
        y.no_handle == x.no_handle + if o == Rebuilt::NoHandle {
            1int
        } else {
            0
        },
        y.succeeded <==> x.succeeded || o == Rebuilt::Swapped,
{
    assert(after@.drop_last() =~= before@);
}

/// One round of the reload: listeners that are gone and fronts without a handle
/// are passed over, and recorded as such; the next one that can be rebuilt is
/// named; with none left the reload is over.
pub proof fn law_next_to_rebuild(
    s: &mut Reload,
    listeners: Vec<ListenerConfig>,
    fronts: Vec<String>,
    r: Option<(usize, usize)>,
    k: int,
)
    requires
        old(s)@.stage == ReloadStage::Rebuilding,
        old(s)@.wf(),
        call_ensures(Reload::next, (s, &listeners, &fronts), r),
    ensures
        final(s)@.queue == old(s)@.queue,
        old(s)@.outcomes.len() <= final(s)@.outcomes.len() <= final(s)@.queue.len(),
        0 <= k < old(s)@.outcomes.len() ==> final(s)@.outcomes[k] == old(s)@.outcomes[k],
        old(s)@.outcomes.len() <= k < final(s)@.outcomes.len() ==> {
            let address = final(s)@.queue[k];
            &&& final(s)@.outcomes[k] == Rebuilt::Gone <==> !is_configured(listeners@, address)
            &&& final(s)@.outcomes[k] == Rebuilt::NoHandle <==> is_configured(listeners@, address)
                && !is_running(fronts@, address)
            &&& final(s)@.outcomes[k] == Rebuilt::Gone || final(s)@.outcomes[k] == Rebuilt::NoHandle
        },
        r matches Some((l, f)) ==> {
            &&& final(s)@.stage == ReloadStage::Rebuilding
            &&& final(s)@.outcomes.len() < final(s)@.queue.len()
            &&& l < listeners@.len()
            &&& f < fronts@.len()
            &&& listeners@[l as int].address@ == final(s)@.queue[final(s)@.outcomes.len() as int]
            &&& fronts@[f as int]@ == final(s)@.queue[final(s)@.outcomes.len() as int]
        },
        r is None ==> final(s)@.stage == ReloadStage::Committed && final(s)@.outcomes.len()
            == final(s)@.queue.len(),
{
    let names = addresses_of(listeners@);
    let queue = old(s)@.queue;
    let from = old(s)@.outcomes.len() as int;
    let to = next_front(queue, from, names, texts(fronts@));
    lemma_next_front_range(queue, from, names, texts(fronts@));
    if from <= k < to {
        lemma_target(queue[k], listeners, fronts);
        lemma_next_front_skips(queue, from, names, texts(fronts@), k);
        assert(queue[from + (k - from)] == queue[k]);
        assert(final(s)@.outcomes[k] == passed_over(target_of(queue[k], names, texts(fronts@))));
    }
    if to < queue.len() {
        lemma_target(queue[to], listeners, fronts);
    }
}

proof fn lemma_next_front_range(
    queue: Seq<Seq<char>>,
    at: int,
    listeners: Seq<Seq<char>>,
    fronts: Seq<Seq<char>>,
)
    requires
        0 <= at <= queue.len(),
    ensures
        at <= next_front(queue, at, listeners, fronts) <= queue.len(),
    decreases queue.len() - at,
{
    if at < queue.len() && !(target_of(queue[at], listeners, fronts) is Rebuild) {
        lemma_next_front_range(queue, at + 1, listeners, fronts);
    }
}

proof fn lemma_next_front_skips(
    queue: Seq<Seq<char>>,
    at: int,
    listeners: Seq<Seq<char>>,
    fronts: Seq<Seq<char>>,
    k: int,
)
    requires
        0 <= at <= k < next_front(queue, at, listeners, fronts),
    ensures
        !(target_of(queue[k], listeners, fronts) is Rebuild),
    decreases queue.len() - at,
{
    if at < k {
        lemma_next_front_skips(queue, at + 1, listeners, fronts, k);
    }
}

/// A rebuild is recorded as replaced exactly when it was.
pub proof fn law_rebuild_is_recorded(s: &mut Reload, replaced: bool)
    requires
        old(s)@.wf(),
        call_ensures(Reload::on_rebuilt, (s, replaced), ()),
    ensures
        final(s)@.queue == old(s)@.queue,
        final(s)@.outcomes.len() == old(s)@.outcomes.len() + 1,
        final(s)@.outcomes.last() == Rebuilt::Swapped <==> replaced,
        final(s)@.outcomes.last() == Rebuilt::Failed <==> !replaced,
        final(s)@.outcomes.drop_last() == old(s)@.outcomes,
{
    assert(final(s)@.outcomes.drop_last() =~= old(s)@.outcomes);
}

/// Whether a listener of a reload came to an outcome.
pub open spec fn came_to(v: ReloadView, address: Seq<char>, o: Rebuilt) -> bool {
    exists|k: int|
        0 <= k < v.outcomes.len() && v.queue[k] == address && (#[trigger] v.outcomes[k]) == o
}

/// Whether a change concerns an address: its own, and every running front where
/// it changes what all of them share.
pub open spec fn concerns(change: SwappableChange, fronts: Seq<String>, address: Seq<char>) -> bool {
    ||| change.address is Some && change.address->0@ == address
    ||| change.max_keepalive_requests && is_running(fronts, address)
}

/// Which changes are reported as applied: exactly those of which some listener
/// was replaced and none failed.
pub proof fn law_applied_changes_are_live(
    s: Reload,
    before: Vec<SwappableChange>,
    after: Vec<SwappableChange>,
    change: SwappableChange,
    fronts: Vec<String>,
    x: Vec<String>,
    y: Vec<String>,
)
    requires
        s@.wf(),
        s@.queue.no_duplicates(),
        call_ensures(Reload::applied_fields, (&s, &before, &fronts), x),
        call_ensures(Reload::applied_fields, (&s, &after, &fronts), y),
        after@ == before@.push(change),
    ensures
        before@.len() == 0 ==> x@.len() == 0,
        ({
            let live = (exists|a: Seq<char>| #[trigger]
                concerns(change, fronts@, a) && came_to(s@, a, Rebuilt::Swapped)) && !(exists|
                a: Seq<char>,
            | #[trigger]
                concerns(change, fronts@, a) && came_to(s@, a, Rebuilt::Failed));
            if live {
                y@.len() == x@.len() + 1 && y@.last()@ == change.field@
            } else {
                y@.len() == x@.len()
            }
        }),
        forall|i: int| 0 <= i < x@.len() ==> (#[trigger] y@[i])@ == x@[i]@,
{
    assert(after@.drop_last() =~= before@);
    lemma_some_came(s@, change, fronts@, Rebuilt::Swapped);
    lemma_some_came(s@, change, fronts@, Rebuilt::Failed);
    let a = texts(x@);
    let b = texts(y@);
    assert(a == s@.live_fields(before@, texts(fronts@)));
    assert(b == s@.live_fields(after@, texts(fronts@)));
    assert(a.len() == x@.len() && b.len() == y@.len());
    if s@.is_live(change, texts(fronts@)) {
        assert(b == a.push(change.field@));
        assert(b[b.len() - 1] == y@.last()@);
    } else {
        assert(a == b);
    }
    assert forall|i: int| 0 <= i < x@.len() implies (#[trigger] y@[i])@ == x@[i]@ by {
        assert(a[i] == b[i]);
    }
}

proof fn lemma_some_came(v: ReloadView, change: SwappableChange, fronts: Seq<String>, o: Rebuilt)
    requires
        v.wf(),
        v.queue.no_duplicates(),
    ensures
        v.some_came_to(concerned(change, texts(fronts)), o) <==> exists|a: Seq<char>| #[trigger]
            concerns(change, fronts, a) && came_to(v, a, o),
{
    let list = concerned(change, texts(fronts));
    let own: int = if change.address is Some {
        1
    } else {
        0
    };
    if v.some_came_to(list, o) {
        let i = choose|i: int| 0 <= i < list.len() && v.outcome_of(#[trigger] list[i]) == Some(o);
        lemma_first_is(v.queue, list[i]);
        let k = first_of(v.queue, list[i])->0;
        assert(v.outcomes[k] == o);
        assert(came_to(v, list[i], o));
        if i >= own {
            assert(list[i] == texts(fronts)[i - own]);
            assert(fronts[i - own]@ == list[i]);
        }
        assert(concerns(change, fronts, list[i]));
    }
    if exists|a: Seq<char>| #[trigger] concerns(change, fronts, a) && came_to(v, a, o) {
        let a = choose|a: Seq<char>| #[trigger] concerns(change, fronts, a) && came_to(v, a, o);
        let k = choose|k: int|
            0 <= k < v.outcomes.len() && v.queue[k] == a && (#[trigger] v.outcomes[k]) == o;
        lemma_first_is(v.queue, a);
        assert(v.queue[k] == a);
        let j = first_of(v.queue, a)->0;
        assert(v.queue[j] == v.queue[k]);
        assert(j == k);
        assert(v.outcome_of(a) == Some(o));
        if change.address is Some && change.address->0@ == a {
            assert(list[0] == a);
        } else {
            let f = choose|f: int| 0 <= f < fronts.len() && (#[trigger] fronts[f])@ == a;
            assert(texts(fronts)[f] == a);
            assert(list[own + f] == a);
        }
    }
}

/// How certificates that were loaded again are counted: each as a success exactly
/// without an error, else as a failure.
pub proof fn law_certificates_are_counted(
    before: Vec<Option<String>>,
    after: Vec<Option<String>>,
    e: Option<String>,
    x: (usize, usize),
    y: (usize, usize),
)
    requires
        call_ensures(reload_all_tls, (&before,), x),
        call_ensures(reload_all_tls, (&after,), y),
        after@ == before@.push(e),
    ensures
        before@.len() == 0 ==> x.0 == 0 && x.1 == 0,
        e is None ==> y.0 == x.0 + 1 && y.1 == x.1,
        e is Some ==> y.0 == x.0 && y.1 == x.1 + 1,
{
    reveal(Seq::filter);
    assert(after@.drop_last() =~= before@);
}

/// The time of a load as the gauge shows it.
pub proof fn law_load_time(seconds: Option<u64>, r: i64)
    requires
        call_ensures(loaded_at, (seconds,), r),
    ensures
        seconds is None ==> r == 0,
        seconds matches Some(s) ==> r >= 0 && (s <= i64::MAX ==> r == s) && (s > i64::MAX ==> r
            == i64::MAX),
{
}

/// How a reload goes on: it asks, checks and rebuilds in this order, gets to
/// rebuilding exactly with a change whose candidate is valid, and then rebuilds
/// what the change reaches, with no outcome yet. Otherwise it keeps what runs.
pub proof fn law_reload_goes_on(
    r: Reload,
    s: &mut Reload,
    manager: Manager,
    step: ReloadStep,
    t: &mut Reload,
    candidate: Candidate,
    changes: Vec<SwappableChange>,
    fronts: Vec<String>,
    next: ReloadStep,
    reached: Vec<String>,
)
    requires
        call_ensures(Reload::new, (), r),
        *old(s) == r,
        call_ensures(Reload::on_manager, (s, manager), step),
        manager == Manager::Changed ==> *old(t) == *final(s) && call_ensures(
            Reload::on_checked,
            (t, candidate, &changes, &fronts),
            next,
        ),
        call_ensures(listeners_to_rebuild, (&changes, &fronts), reached),
    ensures
        r@.stage == ReloadStage::Asking,
        manager == Manager::Changed <==> final(s)@.stage == ReloadStage::Checking,
        manager != Manager::Changed ==> final(s)@.stage == ReloadStage::Kept,
        step == ReloadStep::Validate <==> manager == Manager::Changed,
        final(s)@.queue.len() == 0,
        manager == Manager::Changed && candidate == Candidate::Valid ==> {
            &&& final(t)@.stage == ReloadStage::Rebuilding
            &&& final(t)@.queue == texts(reached@)
            &&& final(t)@.outcomes.len() == 0
            &&& next == ReloadStep::Apply
        },
        manager == Manager::Changed && candidate != Candidate::Valid ==> {
            &&& final(t)@.stage == ReloadStage::Kept
            &&& final(t)@.queue.len() == 0
            &&& next == ReloadStep::RollBack
        },
{
}

/// What a reload reports is what its outcomes come to.
pub proof fn law_report_is_of_the_outcomes(s: Reload, outcomes: Vec<Rebuilt>, x: ReloadReport, y: ReloadReport)
    requires
        outcomes@ == s@.outcomes,
        call_ensures(Reload::report, (&s,), x),
        call_ensures(reload_report, (&outcomes,), y),
    ensures
        x.applied == y.applied,
        x.failed == y.failed,
        x.no_handle == y.no_handle,
        x.succeeded == y.succeeded,
{
}

} // verus!
