//! The resolution pool: which mod to look up next, and what a finished
//! lookup changes.
//!
//! The pool holds no task and makes no call. Its owner asks it for the next
//! mod to look up, runs the lookups in any order and with any degree of
//! concurrency, and hands each result back. The pool keeps the queue of work,
//! the set of identifiers already handed out, the identifiers still being
//! looked up, and what has been found so far.

use crate::identifier::{ModIdentifier, ModIdentifierView};
use crate::overrides::{resolve, OverrideMap};
use crate::profile::{identifiers, mod_views, Mod, ModView};
use crate::text::joined;
use std::collections::VecDeque;
use vstd::prelude::*;

verus! {

/// The file a lookup found for one project.
#[derive(Debug)]
pub struct ResolvedArtifact {
    /// The project the file belongs to.
    pub source: ModIdentifier,
    pub filename: String,
    /// Where the file can be downloaded from.
    pub url: String,
    /// Where the file is to be written, relative to the output directory.
    pub output: String,
    /// The projects the file needs, as the lookup reported them.
    pub dependencies: Vec<ModIdentifier>,
}

/// What a [`ResolvedArtifact`] holds, as mathematical values.
pub struct ResolvedArtifactView {
    pub source: ModIdentifierView,
    pub filename: Seq<char>,
    pub url: Seq<char>,
    pub output: Seq<char>,
    pub dependencies: Seq<ModIdentifierView>,
}

/// The views of a sequence of identifiers, in order.
pub open spec fn id_views(s: Seq<ModIdentifier>) -> Seq<ModIdentifierView> {
    s.map_values(|i: ModIdentifier| i@)
}

impl View for ResolvedArtifact {
    type V = ResolvedArtifactView;

    open spec fn view(&self) -> ResolvedArtifactView {
        ResolvedArtifactView {
            source: self.source@,
            filename: self.filename@,
            url: self.url@,
            output: self.output@,
            dependencies: id_views(self.dependencies@),
        }
    }
}

/// The views of a sequence of artifacts, in order.
pub open spec fn artifact_views(s: Seq<ResolvedArtifact>) -> Seq<ResolvedArtifactView> {
    s.map_values(|a: ResolvedArtifact| a@)
}

/// The projects a sequence of artifacts belongs to, in order.
pub open spec fn sources(s: Seq<ResolvedArtifactView>) -> Seq<ModIdentifierView> {
    s.map_values(|a: ResolvedArtifactView| a.source)
}

/// How the lookup of one mod ended.
#[derive(Debug)]
pub enum Lookup {
    /// A compatible file was found.
    Found { filename: String, url: String, output: String, dependencies: Vec<ModIdentifier> },
    /// The platform refused to answer because too many requests were made.
    /// Nothing further is looked up once this has happened.
    RateLimited(String),
    /// The lookup failed for any other reason. The other mods are not
    /// affected.
    Failed(String),
}

/// What a [`Lookup`] holds, as mathematical values.
pub enum LookupView {
    Found { filename: Seq<char>, url: Seq<char>, output: Seq<char>, dependencies: Seq<ModIdentifierView> },
    RateLimited(Seq<char>),
    Failed(Seq<char>),
}

impl View for Lookup {
    type V = LookupView;

    open spec fn view(&self) -> LookupView {
        match self {
            Lookup::Found { filename, url, output, dependencies } => LookupView::Found {
                filename: filename@,
                url: url@,
                output: output@,
                dependencies: id_views(dependencies@),
            },
            Lookup::RateLimited(message) => LookupView::RateLimited(message@),
            Lookup::Failed(message) => LookupView::Failed(message@),
        }
    }
}

/// Why a run of the pool has no result.
#[derive(Debug)]
pub enum ResolveError {
    /// A lookup was refused for too many requests; the message is that of
    /// the first such lookup.
    RateLimited(String),
    /// Lookups are still under way, or work that can be started is still
    /// queued.
    Unfinished,
}

/// What a [`ResolveError`] holds, as mathematical values.
pub enum ResolveErrorView {
    RateLimited(Seq<char>),
    Unfinished,
}

impl View for ResolveError {
    type V = ResolveErrorView;

    open spec fn view(&self) -> ResolveErrorView {
        match self {
            ResolveError::RateLimited(message) => ResolveErrorView::RateLimited(message@),
            ResolveError::Unfinished => ResolveErrorView::Unfinished,
        }
    }
}

/// The record under which the dependency `dep` is queued: the project that
/// stands in for it under `overrides`, named after that project's string
/// form.
pub open spec fn dependency_record(
    dep: ModIdentifierView,
    overrides: Map<Seq<char>, ModIdentifierView>,
) -> ModView {
    ModView {
        name: "Dependency: "@ + resolve(dep, overrides).key(),
        identifier: resolve(dep, overrides),
        slug: None,
        pin: false,
    }
}

/// The records under which the dependencies `deps` are queued, in order.
pub open spec fn dependency_records(
    deps: Seq<ModIdentifierView>,
    overrides: Map<Seq<char>, ModIdentifierView>,
) -> Seq<ModView> {
    deps.map_values(|d: ModIdentifierView| dependency_record(d, overrides))
}

/// The state of a pool, as mathematical values.
pub struct PoolView {
    /// The records waiting to be looked up, the next one first.
    pub queue: Seq<ModView>,
    /// Every identifier handed out for lookup so far, in that order.
    pub seen: Seq<ModIdentifierView>,
    /// The identifiers handed out whose lookup has not been reported back.
    pub in_flight: Set<ModIdentifierView>,
    /// What the lookups have found, in the order they were reported.
    pub artifacts: Seq<ResolvedArtifactView>,
    /// How many lookups have been reported back.
    pub completed: nat,
    /// Whether a lookup failed for a reason other than rate limiting.
    pub failed: bool,
    /// The message of the first lookup that was refused for rate limiting.
    pub rate_limited: Option<Seq<char>>,
    /// The replacements applied to dependencies.
    pub overrides: Map<Seq<char>, ModIdentifierView>,
}

/// `queue` without its longest prefix of records whose identifier is in
/// `seen`.
pub open spec fn skip_seen(queue: Seq<ModView>, seen: Seq<ModIdentifierView>) -> Seq<ModView>
    decreases queue.len(),
{
    if queue.len() > 0 && seen.contains(queue[0].identifier) {
        skip_seen(queue.drop_first(), seen)
    } else {
        queue
    }
}

impl PoolView {
    /// The pool before anything was handed out.
    pub open spec fn initial(mods: Seq<ModView>, overrides: Map<Seq<char>, ModIdentifierView>) -> PoolView {
        PoolView {
            queue: mods,
            seen: Seq::empty(),
            in_flight: Set::empty(),
            artifacts: Seq::empty(),
            completed: 0,
            failed: false,
            rate_limited: None,
            overrides,
        }
    }

    /// What holds of a pool at every moment of a run:
    /// no identifier was handed out twice; what is being looked up was
    /// handed out; no project has two artifacts; a project with an artifact
    /// was handed out and is no longer being looked up; every dependency
    /// of an artifact was, after replacement, handed out or is queued; and
    /// as long as no lookup has failed or been refused, every identifier
    /// handed out is being looked up or has its artifact.
    pub open spec fn wf(self) -> bool {
        &&& self.seen.no_duplicates()
        &&& forall|id: ModIdentifierView| self.in_flight.contains(id) ==> self.seen.contains(id)
        &&& sources(self.artifacts).no_duplicates()
        &&& forall|i: int|
            0 <= i < self.artifacts.len() ==> self.seen.contains(#[trigger] self.artifacts[i].source)
                && !self.in_flight.contains(self.artifacts[i].source)
        &&& forall|i: int, k: int|
            0 <= i < self.artifacts.len() && 0 <= k < self.artifacts[i].dependencies.len()
                ==> self.covers(resolve(#[trigger] self.artifacts[i].dependencies[k], self.overrides))
        &&& !self.failed && self.rate_limited is None ==> forall|j: int|
            0 <= j < self.seen.len() ==> self.in_flight.contains(#[trigger] self.seen[j])
                || sources(self.artifacts).contains(self.seen[j])
    }

    /// `id` was handed out for lookup or is waiting in the queue.
    pub open spec fn covers(self, id: ModIdentifierView) -> bool {
        self.seen.contains(id) || identifiers(self.queue).contains(id)
    }

    /// The state after asking for the next mod to look up, and that mod.
    ///
    /// Once a lookup was refused for rate limiting nothing is handed out and
    /// nothing changes. Otherwise the queue loses its records up to and
    /// including the first one whose identifier was not handed out before;
    /// that record is handed out and its identifier is now seen and in
    /// flight. Where the queue holds no such record it is emptied and
    /// nothing is handed out.
    pub open spec fn dispatch(self) -> (PoolView, Option<ModView>) {
        let rest = skip_seen(self.queue, self.seen);
        if self.rate_limited is Some {
            (self, None)
        } else if rest.len() == 0 {
            (PoolView { queue: rest, ..self }, None)
        } else {
            (
                PoolView {
                    queue: rest.drop_first(),
                    seen: self.seen.push(rest[0].identifier),
                    in_flight: self.in_flight.insert(rest[0].identifier),
                    ..self
                },
                Some(rest[0]),
            )
        }
    }

    /// The state after the lookup of `id` was reported to have ended in
    /// `outcome`.
    ///
    /// A report for an identifier that is not in flight changes nothing.
    /// Otherwise the identifier is no longer in flight and one more lookup is
    /// completed. A found file becomes an artifact of `id`, and its
    /// dependencies are queued after replacement. A failure sets the failure
    /// flag. A rate-limit refusal is recorded, unless one was before.
    pub open spec fn complete(self, id: ModIdentifierView, outcome: LookupView) -> PoolView {
        if !self.in_flight.contains(id) {
            self
        } else {
            let landed = PoolView {
                in_flight: self.in_flight.remove(id),
                completed: self.completed + 1,
                ..self
            };
            match outcome {
                LookupView::Found { filename, url, output, dependencies } => PoolView {
                    artifacts: self.artifacts.push(
                        ResolvedArtifactView { source: id, filename, url, output, dependencies },
                    ),
                    queue: self.queue + dependency_records(dependencies, self.overrides),
                    ..landed
                },
                LookupView::RateLimited(message) => PoolView {
                    rate_limited: if self.rate_limited is Some {
                        self.rate_limited
                    } else {
                        Some(message)
                    },
                    ..landed
                },
                LookupView::Failed(_) => PoolView { failed: true, ..landed },
            }
        }
    }

    /// No lookup is under way, and no further one will be started: the queue
    /// is empty or a lookup was refused for rate limiting.
    pub open spec fn is_done(self) -> bool {
        self.in_flight =~= Set::empty() && (self.rate_limited is Some || self.queue.len() == 0)
    }

    /// The result of the run. There is none before the pool is done. Then it
    /// is the refusal, if a lookup was refused for rate limiting, whatever
    /// the other lookups found; else the artifacts and the failure flag.
    pub open spec fn outcome(self) -> Result<(Seq<ResolvedArtifactView>, bool), ResolveErrorView> {
        if !self.is_done() {
            Err(ResolveErrorView::Unfinished)
        } else {
            match self.rate_limited {
                Some(message) => Err(ResolveErrorView::RateLimited(message)),
                None => Ok((self.artifacts, self.failed)),
            }
        }
    }
}

/// What `skip_seen` drops and what it keeps: the result is the end of the
/// queue, every record before it has a seen identifier, and its first record,
/// if it has one, has not.
pub proof fn lemma_skip_seen(queue: Seq<ModView>, seen: Seq<ModIdentifierView>)
    ensures
        skip_seen(queue, seen).len() <= queue.len(),
        skip_seen(queue, seen) == queue.subrange(
            queue.len() - skip_seen(queue, seen).len(),
            queue.len() as int,
        ),
        forall|j: int|
            0 <= j < queue.len() - skip_seen(queue, seen).len() ==> seen.contains(
                (#[trigger] queue[j]).identifier,
            ),
        skip_seen(queue, seen).len() > 0 ==> !seen.contains(skip_seen(queue, seen)[0].identifier),
    decreases queue.len(),
{
    if queue.len() > 0 && seen.contains(queue[0].identifier) {
        let tail = queue.drop_first();
        lemma_skip_seen(tail, seen);
        let rest = skip_seen(tail, seen);
        assert(rest == queue.subrange(queue.len() - rest.len(), queue.len() as int)) by {
            assert(tail.subrange(tail.len() - rest.len(), tail.len() as int) =~= queue.subrange(
                queue.len() - rest.len(),
                queue.len() as int,
            ));
        }
        assert forall|j: int| 0 <= j < queue.len() - rest.len() implies seen.contains(
            (#[trigger] queue[j]).identifier,
        ) by {
            if j > 0 {
                assert(queue[j] == tail[j - 1]);
            }
        }
    } else {
        assert(queue =~= queue.subrange(0, queue.len() as int));
    }
}

/// What a pool covers it still covers after a mod was asked for: the
/// records that left the queue have a seen identifier.
pub proof fn lemma_dispatch_covers(p: PoolView, id: ModIdentifierView)
    requires
        p.covers(id),
    ensures
        p.dispatch().0.covers(id),
{
    let rest = skip_seen(p.queue, p.seen);
    let q = p.dispatch().0;
    lemma_skip_seen(p.queue, p.seen);
    let n = p.queue.len() - rest.len();
    if p.seen.contains(id) {
        let j = choose|j: int| 0 <= j < p.seen.len() && p.seen[j] == id;
        if p.rate_limited is None && rest.len() > 0 {
            assert(q.seen[j] == id);
        }
    } else {
        let j = choose|j: int| 0 <= j < identifiers(p.queue).len() && identifiers(p.queue)[j] == id;
        assert(p.queue[j].identifier == id);
        if p.rate_limited is None && rest.len() > 0 {
            if j == n {
                assert(q.seen[q.seen.len() - 1] == id);
            } else {
                assert(q.queue[j - n - 1] == p.queue[j]);
                assert(identifiers(q.queue)[j - n - 1] == id);
            }
        }
    }
}

/// What a pool covers it still covers after a lookup was reported back.
pub proof fn lemma_complete_covers(
    p: PoolView,
    id: ModIdentifierView,
    outcome: LookupView,
    covered: ModIdentifierView,
)
    requires
        p.covers(covered),
    ensures
        p.complete(id, outcome).covers(covered),
{
    let q = p.complete(id, outcome);
    if !p.seen.contains(covered) {
        let j = choose|j: int|
            0 <= j < identifiers(p.queue).len() && identifiers(p.queue)[j] == covered;
        assert(q.queue[j] == p.queue[j]);
        assert(identifiers(q.queue)[j] == covered);
    }
}

/// Handing out a mod keeps a pool well formed, and the mod handed out was
/// not handed out before.
pub proof fn lemma_dispatch_wf(p: PoolView)
    requires
        p.wf(),
    ensures
        p.dispatch().0.wf(),
        p.dispatch().1 matches Some(m) ==> !p.seen.contains(m.identifier),
{
    let rest = skip_seen(p.queue, p.seen);
    let q = p.dispatch().0;
    lemma_skip_seen(p.queue, p.seen);
    assert forall|i: int, k: int|
        0 <= i < q.artifacts.len() && 0 <= k < q.artifacts[i].dependencies.len() implies q.covers(
        resolve(#[trigger] q.artifacts[i].dependencies[k], q.overrides),
    ) by {
        lemma_dispatch_covers(p, resolve(p.artifacts[i].dependencies[k], p.overrides));
    }
    if p.rate_limited is None && rest.len() > 0 {
        let id = rest[0].identifier;
        assert(q.seen.drop_last() == p.seen);
        assert(q.seen.last() == id);
        assert forall|x: ModIdentifierView| p.seen.contains(x) implies q.seen.contains(x) by {
            let j = choose|j: int| 0 <= j < p.seen.len() && p.seen[j] == x;
            assert(q.seen[j] == x);
        }
        assert(q.seen.contains(id)) by {
            assert(q.seen[q.seen.len() - 1] == id);
        }
        assert(q.seen.no_duplicates()) by {
            assert forall|a: int, b: int|
                0 <= a < q.seen.len() && 0 <= b < q.seen.len() && a != b implies q.seen[a]
                != q.seen[b] by {
                if a < p.seen.len() && b < p.seen.len() {
                } else if a < p.seen.len() {
                    assert(p.seen.contains(p.seen[a]));
                } else {
                    assert(p.seen.contains(p.seen[b]));
                }
            }
        }
        assert forall|i: int| 0 <= i < q.artifacts.len() implies q.seen.contains(
            #[trigger] q.artifacts[i].source,
        ) && !q.in_flight.contains(q.artifacts[i].source) by {
            assert(p.seen.contains(p.artifacts[i].source));
        }
        if !q.failed && q.rate_limited is None {
            assert forall|j: int| 0 <= j < q.seen.len() implies q.in_flight.contains(
                #[trigger] q.seen[j],
            ) || sources(q.artifacts).contains(q.seen[j]) by {
                if j < p.seen.len() {
                    assert(p.in_flight.contains(p.seen[j]) || sources(p.artifacts).contains(
                        p.seen[j],
                    ));
                }
            }
        }
    }
}

/// Reporting a lookup back keeps a pool well formed.
pub proof fn lemma_complete_wf(p: PoolView, id: ModIdentifierView, outcome: LookupView)
    requires
        p.wf(),
    ensures
        p.complete(id, outcome).wf(),
{
    let q = p.complete(id, outcome);
    if p.in_flight.contains(id) {
        assert forall|i: int| 0 <= i < p.artifacts.len() implies q.seen.contains(
            #[trigger] p.artifacts[i].source,
        ) && !q.in_flight.contains(p.artifacts[i].source) by {
            assert(p.seen.contains(p.artifacts[i].source));
        }
        assert forall|i: int, k: int|
            0 <= i < p.artifacts.len() && 0 <= k < p.artifacts[i].dependencies.len() implies q.covers(
            resolve(#[trigger] p.artifacts[i].dependencies[k], q.overrides),
        ) by {
            lemma_complete_covers(
                p,
                id,
                outcome,
                resolve(p.artifacts[i].dependencies[k], p.overrides),
            );
        }
        match outcome {
            LookupView::Found { filename, url, output, dependencies } => {
                let a = ResolvedArtifactView { source: id, filename, url, output, dependencies };
                assert(q.artifacts.drop_last() == p.artifacts);
                assert(q.artifacts.last() == a);
                assert(sources(q.artifacts).no_duplicates()) by {
                    assert forall|x: int, y: int|
                        0 <= x < q.artifacts.len() && 0 <= y < q.artifacts.len() && x
                            != y implies sources(q.artifacts)[x] != sources(q.artifacts)[y] by {
                        if x < p.artifacts.len() && y < p.artifacts.len() {
                            assert(sources(p.artifacts)[x] != sources(p.artifacts)[y]);
                        } else if x < p.artifacts.len() {
                            assert(!p.in_flight.contains(p.artifacts[x].source));
                        } else {
                            assert(!p.in_flight.contains(p.artifacts[y].source));
                        }
                    }
                }
                assert forall|i: int| 0 <= i < q.artifacts.len() implies q.seen.contains(
                    #[trigger] q.artifacts[i].source,
                ) && !q.in_flight.contains(q.artifacts[i].source) by {
                    if i < p.artifacts.len() {
                        assert(q.artifacts[i] == p.artifacts[i]);
                    }
                }
                if !q.failed && q.rate_limited is None {
                    assert forall|j: int| 0 <= j < q.seen.len() implies q.in_flight.contains(
                        #[trigger] q.seen[j],
                    ) || sources(q.artifacts).contains(q.seen[j]) by {
                        let x = p.seen[j];
                        if x == id {
                            assert(sources(q.artifacts)[q.artifacts.len() - 1] == id);
                        } else if !p.in_flight.contains(x) {
                            let w = choose|w: int|
                                0 <= w < sources(p.artifacts).len() && sources(p.artifacts)[w]
                                    == x;
                            assert(sources(q.artifacts)[w] == x);
                        }
                    }
                }
                let added = dependency_records(dependencies, p.overrides);
                assert forall|i: int, k: int|
                    0 <= i < q.artifacts.len() && 0 <= k < q.artifacts[i].dependencies.len() implies q.covers(
                    resolve(#[trigger] q.artifacts[i].dependencies[k], q.overrides),
                ) by {
                    let r = resolve(q.artifacts[i].dependencies[k], q.overrides);
                    if i < p.artifacts.len() {
                        assert(q.artifacts[i] == p.artifacts[i]);
                    } else {
                        assert(added[k].identifier == r);
                        assert(q.queue[p.queue.len() + k] == added[k]);
                        assert(identifiers(q.queue)[p.queue.len() + k] == r);
                    }
                }
            },
            _ => {},
        }
    }
}

/// One thing that can happen to a pool: its owner asks for the next mod, or
/// reports a lookup back.
pub enum Step {
    Dispatch,
    Complete(ModIdentifierView, LookupView),
}

impl PoolView {
    /// The state after one step.
    pub open spec fn step(self, s: Step) -> PoolView {
        match s {
            Step::Dispatch => self.dispatch().0,
            Step::Complete(id, outcome) => self.complete(id, outcome),
        }
    }

    /// The state after a sequence of steps, taken in order.
    pub open spec fn after(self, steps: Seq<Step>) -> PoolView
        decreases steps.len(),
    {
        if steps.len() == 0 {
            self
        } else {
            self.after(steps.drop_last()).step(steps.last())
        }
    }
}

/// Whatever the owner of a pool does and in whatever order the lookups come
/// back, the pool stays well formed and keeps its overrides.
pub proof fn lemma_steps_wf(p: PoolView, steps: Seq<Step>)
    requires
        p.wf(),
    ensures
        p.after(steps).wf(),
        p.after(steps).overrides == p.overrides,
    decreases steps.len(),
{
    if steps.len() > 0 {
        lemma_steps_wf(p, steps.drop_last());
        let q = p.after(steps.drop_last());
        match steps.last() {
            Step::Dispatch => {
                lemma_dispatch_wf(q);
            },
            Step::Complete(id, outcome) => {
                lemma_complete_wf(q, id, outcome);
            },
        }
    }
}

/// Dedup: in a run that came to its end without a rate-limit refusal, every
/// dependency of every artifact was handed out for lookup exactly once,
/// however many mods share it and in whatever order the lookups came back;
/// and no project has two artifacts.
pub proof fn lemma_dependency_resolved_once(
    mods: Seq<ModView>,
    overrides: Map<Seq<char>, ModIdentifierView>,
    steps: Seq<Step>,
    i: int,
    k: int,
)
    requires
        PoolView::initial(mods, overrides).after(steps).is_done(),
        PoolView::initial(mods, overrides).after(steps).rate_limited is None,
        0 <= i < PoolView::initial(mods, overrides).after(steps).artifacts.len(),
        0 <= k < PoolView::initial(mods, overrides).after(steps).artifacts[i].dependencies.len(),
    ensures
        ({
            let end = PoolView::initial(mods, overrides).after(steps);
            let dep = resolve(end.artifacts[i].dependencies[k], overrides);
            &&& end.seen.contains(dep)
            &&& forall|a: int, b: int|
                0 <= a < end.seen.len() && 0 <= b < end.seen.len() && end.seen[a] == dep
                    && end.seen[b] == dep ==> a == b
            &&& forall|a: int, b: int|
                0 <= a < end.artifacts.len() && 0 <= b < end.artifacts.len()
                    && end.artifacts[a].source == end.artifacts[b].source ==> a == b
        }),
{
    let start = PoolView::initial(mods, overrides);
    lemma_steps_wf(start, steps);
    let end = start.after(steps);
    let dep = resolve(end.artifacts[i].dependencies[k], overrides);
    assert(end.covers(dep));
    assert(identifiers(end.queue) =~= Seq::empty());
    assert forall|a: int, b: int|
        0 <= a < end.artifacts.len() && 0 <= b < end.artifacts.len() && end.artifacts[a].source
            == end.artifacts[b].source implies a == b by {
        assert(sources(end.artifacts)[a] == sources(end.artifacts)[b]);
    }
}

/// Override substitution: when the lookup of a mod in flight reports a
/// dependency whose string form has a replacement, it is the replacement
/// that is queued, under the name made from the replacement's string form.
pub proof fn lemma_override_substitution(
    p: PoolView,
    id: ModIdentifierView,
    outcome: LookupView,
    k: int,
)
    requires
        p.in_flight.contains(id),
        outcome is Found,
        0 <= k < outcome->dependencies.len(),
        p.overrides.contains_key(outcome->dependencies[k].key()),
    ensures
        ({
            let target = p.overrides[outcome->dependencies[k].key()];
            let queued = p.complete(id, outcome).queue[p.queue.len() + k];
            &&& p.complete(id, outcome).queue.len() == p.queue.len() + outcome->dependencies.len()
            &&& queued.identifier == target
            &&& queued.name == "Dependency: "@ + target.key()
        }),
{
}

/// Termination: a pool never waits for work that cannot come. Asking for
/// the next mod either hands one out or, if nothing is in flight, leaves
/// the pool done, however many records of seen identifiers the queue held.
pub proof fn lemma_never_stuck(p: PoolView)
    ensures
        p.dispatch().1 is None && p.in_flight =~= Set::empty() ==> p.dispatch().0.is_done(),
        p.dispatch().1 is Some ==> p.dispatch().0.queue.len() < p.queue.len()
            && p.dispatch().0.seen.len() == p.seen.len() + 1,
{
    lemma_skip_seen(p.queue, p.seen);
}

/// Rate-limit short-circuit: once a lookup was refused for rate limiting,
/// the run has no result but an error, whatever happens afterwards; and once
/// the lookups under way have come back, the error is that refusal.
pub proof fn lemma_rate_limit_is_final(p: PoolView, steps: Seq<Step>)
    requires
        p.rate_limited is Some,
    ensures
        p.after(steps).rate_limited == p.rate_limited,
        p.after(steps).outcome() is Err,
        p.after(steps).is_done() ==> p.after(steps).outcome() == Err::<
            (Seq<ResolvedArtifactView>, bool),
            ResolveErrorView,
        >(ResolveErrorView::RateLimited(p.rate_limited->0)),
    decreases steps.len(),
{
    if steps.len() > 0 {
        lemma_rate_limit_is_final(p, steps.drop_last());
    }
}

/// Rate-limit short-circuit: if the lookup of a mod in flight is refused for
/// rate limiting, the run ends in an error, even if every other lookup
/// succeeds: in the refusal, once the pool is done.
pub proof fn lemma_rate_limit_fails_run(
    p: PoolView,
    id: ModIdentifierView,
    message: Seq<char>,
    steps: Seq<Step>,
)
    requires
        p.in_flight.contains(id),
    ensures
        p.complete(id, LookupView::RateLimited(message)).after(steps).outcome() is Err,
        p.complete(id, LookupView::RateLimited(message)).after(steps).is_done() ==> p.complete(
            id,
            LookupView::RateLimited(message),
        ).after(steps).outcome()->Err_0 is RateLimited,
{
    lemma_rate_limit_is_final(p.complete(id, LookupView::RateLimited(message)), steps);
}

/// Taking the record at `i` out of a sequence without duplicates, by moving
/// the last record into its place, takes exactly that record out of the set
/// of its records.
pub proof fn lemma_swap_remove_set<T>(s: Seq<T>, i: int)
    requires
        0 <= i < s.len(),
        s.no_duplicates(),
    ensures
        s.update(i, s.last()).drop_last().no_duplicates(),
        s.update(i, s.last()).drop_last().to_set() == s.to_set().remove(s[i]),
{
    let t = s.update(i, s.last()).drop_last();
    assert forall|x: T| t.to_set().contains(x) == s.to_set().remove(s[i]).contains(x) by {
        if t.contains(x) {
            let j = choose|j: int| 0 <= j < t.len() && t[j] == x;
            if j == i {
                assert(s[s.len() - 1] == x);
            } else {
                assert(s[j] == x);
            }
        }
        if s.contains(x) && x != s[i] {
            let j = choose|j: int| 0 <= j < s.len() && s[j] == x;
            if j == s.len() - 1 {
                assert(t[i] == x);
            } else {
                assert(t[j] == x);
            }
        }
    }
    assert(t.to_set() =~= s.to_set().remove(s[i]));
}

/// The view of an optional mod.
pub open spec fn opt_mod_view(m: Option<Mod>) -> Option<ModView> {
    match m {
        Some(m) => Some(m@),
        None => None,
    }
}

/// The view of a run's result.
pub open spec fn result_view(r: Result<(Vec<ResolvedArtifact>, bool), ResolveError>) -> Result<
    (Seq<ResolvedArtifactView>, bool),
    ResolveErrorView,
> {
    match r {
        Ok((artifacts, failed)) => Ok((artifact_views(artifacts@), failed)),
        Err(e) => Err(e@),
    }
}

/// The first position of `id` in `v`.
pub fn position_of(v: &Vec<ModIdentifier>, id: &ModIdentifier) -> (r: Option<usize>)
    ensures
        match r {
            Some(i) => i < v@.len() && v@[i as int]@ == id@,
            None => !id_views(v@).contains(id@),
        },
{
    let mut i: usize = 0;
    while i < v.len()
        invariant
            i <= v.len(),
            forall|j: int| 0 <= j < i ==> v@[j]@ != id@,
        decreases v.len() - i,
    {
        if v[i] == *id {
            return Some(i);
        }
        i += 1;
    }
    None
}

/// The record under which the dependency `dep` is queued.
pub fn dependency_mod(dep: ModIdentifier, overrides: &OverrideMap) -> (m: Mod)
    ensures
        m@ == dependency_record(dep@, overrides@),
{
    let identifier = overrides.resolve(dep);
    let key = identifier.key();
    let name = joined("Dependency: ", key.as_str());
    Mod { name, identifier, slug: None, pin: false }
}

/// The state of one resolution run.
#[derive(Debug)]
pub struct Pool {
    queue: VecDeque<Mod>,
    seen: Vec<ModIdentifier>,
    in_flight: Vec<ModIdentifier>,
    artifacts: Vec<ResolvedArtifact>,
    completed: usize,
    failed: bool,
    rate_limited: Option<String>,
    overrides: OverrideMap,
}

impl View for Pool {
    type V = PoolView;

    closed spec fn view(&self) -> PoolView {
        PoolView {
            queue: mod_views(self.queue@),
            seen: id_views(self.seen@),
            in_flight: id_views(self.in_flight@).to_set(),
            artifacts: artifact_views(self.artifacts@),
            completed: self.completed as nat,
            failed: self.failed,
            rate_limited: crate::profile::opt_view(self.rate_limited),
            overrides: self.overrides@,
        }
    }
}

impl Pool {
    /// The pool is in a state that a run can reach: its view is well formed,
    /// and its counters agree with what it holds.
    pub closed spec fn wf(&self) -> bool {
        &&& self@.wf()
        &&& id_views(self.in_flight@).no_duplicates()
        &&& self.completed + self.in_flight@.len() == self.seen@.len()
    }

    /// A pool with `mods` queued in order and nothing handed out.
    pub fn new(mods: Vec<Mod>, overrides: OverrideMap) -> (pool: Pool)
        ensures
            pool.wf(),
            pool@ == PoolView::initial(mod_views(mods@), overrides@),
    {
        let ghost all = mods@;
        let mut mods = mods;
        let mut queue: VecDeque<Mod> = VecDeque::new();
        while mods.len() > 0
            invariant
                mods@ + queue@ == all,
            decreases mods.len(),
        {
            let ghost before = mods@;
            let m = mods.pop().unwrap();
            queue.push_front(m);
            assert(mods@ + queue@ =~= before + queue@.drop_first());
        }
        assert(queue@ =~= all);
        let pool = Pool {
            queue,
            seen: Vec::new(),
            in_flight: Vec::new(),
            artifacts: Vec::new(),
            completed: 0,
            failed: false,
            rate_limited: None,
            overrides,
        };
        assert(pool@.seen =~= Seq::empty());
        assert(pool@.in_flight =~= Set::empty());
        assert(pool@.artifacts =~= Seq::empty());
        pool
    }

    /// The next mod to look up, if there is one now.
    ///
    /// The mod returned was never returned before in this run; it counts as
    /// in flight until [`Pool::complete`] is called with its identifier.
    /// `None` means that nothing can be handed out at this moment: the queue
    /// is used up, or a lookup was refused for rate limiting.
    pub fn next_dispatch(&mut self) -> (r: Option<Mod>)
        requires
            old(self).wf(),
        ensures
            final(self).wf(),
            (final(self)@, opt_mod_view(r)) == old(self)@.dispatch(),
    {
        let ghost before = self@;
        proof {
            lemma_dispatch_wf(before);
            lemma_skip_seen(before.queue, before.seen);
        }
        if self.rate_limited.is_some() {
            return None;
        }
        loop
            invariant
                self.seen == old(self).seen,
                self.in_flight == old(self).in_flight,
                self.artifacts == old(self).artifacts,
                self.completed == old(self).completed,
                self.failed == old(self).failed,
                self.rate_limited == old(self).rate_limited,
                self.overrides == old(self).overrides,
                self.rate_limited is None,
                before == old(self)@,
                old(self).wf(),
                before.dispatch().0.wf(),
                before.dispatch().1 matches Some(m) ==> !before.seen.contains(m.identifier),
                skip_seen(mod_views(self.queue@), before.seen) == skip_seen(before.queue, before.seen),
            decreases self.queue@.len(),
        {
            let ghost queued = self.queue@;
            match self.queue.pop_front() {
                None => {
                    assert(mod_views(self.queue@) =~= Seq::empty());
                    assert(self@ == before.dispatch().0);
                    return None;
                },
                Some(m) => {
                    assert(mod_views(queued)[0] == m@);
                    assert(mod_views(queued).drop_first() =~= mod_views(self.queue@));
                    if position_of(&self.seen, &m.identifier).is_some() {
                        assert(before.seen.contains(m.identifier@)) by {
                            let i = choose|i: int|
                                0 <= i < self.seen@.len() && self.seen@[i]@ == m.identifier@;
                            assert(before.seen[i] == m.identifier@);
                        }
                    } else {
                        let ghost flying = id_views(self.in_flight@);
                        self.seen.push(m.identifier.clone());
                        self.in_flight.push(m.identifier.clone());
                        proof {
                            let id = m.identifier@;
                            assert(id_views(self.seen@) =~= before.seen.push(id));
                            assert(id_views(self.in_flight@) =~= flying.push(id));
                            assert(id_views(self.in_flight@).to_set() =~= before.in_flight.insert(id))
                                by {
                                assert forall|x: ModIdentifierView|
                                    flying.push(id).contains(x) == (flying.contains(x) || x
                                        == id) by {
                                    if flying.contains(x) {
                                        let j = choose|j: int|
                                            0 <= j < flying.len() && flying[j] == x;
                                        assert(flying.push(id)[j] == x);
                                    }
                                    assert(flying.push(id)[flying.len() as int] == id);
                                }
                            }
                            assert(!flying.contains(id)) by {
                                if flying.contains(id) {
                                    assert(before.in_flight.contains(id));
                                }
                            }
                            assert(id_views(self.in_flight@).no_duplicates());
                            assert(self@ == before.dispatch().0);
                        }
                        return Some(m);
                    }
                },
            }
        }
    }

    /// Records that the lookup of `id` ended in `outcome`, and says whether
    /// `id` was in flight. A report for an identifier that is not in flight
    /// is not taken and changes nothing.
    pub fn complete(&mut self, id: &ModIdentifier, outcome: Lookup) -> (accepted: bool)
        requires
            old(self).wf(),
        ensures
            final(self).wf(),
            final(self)@ == old(self)@.complete(id@, outcome@),
            accepted == old(self)@.in_flight.contains(id@),
    {
        let ghost before = self@;
        let ghost flying = id_views(self.in_flight@);
        proof {
            lemma_complete_wf(before, id@, outcome@);
        }
        let i = match position_of(&self.in_flight, id) {
            None => {
                return false;
            },
            Some(i) => i,
        };
        assert(flying.contains(id@)) by {
            assert(flying[i as int] == id@);
        }
        let handed_out = self.seen.len();
        assert(self.completed < handed_out);
        self.in_flight.swap_remove(i);
        self.completed = self.completed + 1;
        proof {
            lemma_swap_remove_set(flying, i as int);
            assert(id_views(self.in_flight@) =~= flying.update(i as int, flying.last()).drop_last());
        }
        match outcome {
            Lookup::Found { filename, url, output, dependencies } => {
                let ghost queued = mod_views(self.queue@);
                let ghost deps = id_views(dependencies@);
                let mut k: usize = 0;
                while k < dependencies.len()
                    invariant
                        k <= dependencies.len(),
                        0 <= i < flying.len(),
                        deps == id_views(dependencies@),
                        self.overrides@ == before.overrides,
                        mod_views(self.queue@) == queued + dependency_records(
                            deps,
                            before.overrides,
                        ).take(k as int),
                        self.seen == old(self).seen,
                        self.artifacts == old(self).artifacts,
                        self.failed == old(self).failed,
                        self.rate_limited == old(self).rate_limited,
                        self.completed == old(self).completed + 1,
                        id_views(self.in_flight@) == flying.update(
                            i as int,
                            flying.last(),
                        ).drop_last(),
                    decreases dependencies.len() - k,
                {
                    let ghost so_far = mod_views(self.queue@);
                    let record = dependency_mod(dependencies[k].clone(), &self.overrides);
                    self.queue.push_back(record);
                    assert(mod_views(self.queue@) =~= so_far.push(record@));
                    assert(dependency_records(deps, before.overrides).take(k as int + 1)
                        =~= dependency_records(deps, before.overrides).take(k as int).push(
                        record@,
                    ));
                    k += 1;
                }
                assert(dependency_records(deps, before.overrides).take(k as int)
                    =~= dependency_records(deps, before.overrides));
                let ghost found = artifact_views(self.artifacts@);
                let artifact = ResolvedArtifact {
                    source: id.clone(),
                    filename,
                    url,
                    output,
                    dependencies,
                };
                self.artifacts.push(artifact);
                assert(artifact_views(self.artifacts@) =~= found.push(artifact@));
                assert(self@ == before.complete(id@, outcome@));
            },
            Lookup::RateLimited(message) => {
                if self.rate_limited.is_none() {
                    self.rate_limited = Some(message);
                }
                assert(self@ == before.complete(id@, outcome@));
            },
            Lookup::Failed(_) => {
                self.failed = true;
                assert(self@ == before.complete(id@, outcome@));
            },
        }
        true
    }

    /// Whether the run is over: no lookup is under way and none will be
    /// started.
    pub fn is_done(&self) -> (r: bool)
        ensures
            r == self@.is_done(),
    {
        proof {
            let flying = id_views(self.in_flight@);
            if flying.len() > 0 {
                assert(flying.contains(flying[0]));
                assert(flying.to_set().contains(flying[0]));
            } else {
                assert(flying.to_set() =~= Set::empty());
            }
        }
        self.in_flight.len() == 0 && (self.rate_limited.is_some() || self.queue.len() == 0)
    }

    /// How many lookups have been reported back, and how many mods have been
    /// handed out.
    pub fn progress(&self) -> (r: (usize, usize))
        ensures
            r.0 == self@.completed,
            r.1 == self@.seen.len(),
    {
        (self.completed, self.seen.len())
    }

    /// The result of the run.
    ///
    /// There is none while lookups are under way or work is queued. Once
    /// the pool is done, a rate-limit refusal makes the whole run fail,
    /// whatever the other lookups found. Otherwise the result is what was
    /// found, with the flag that says whether some lookup failed.
    pub fn finish(self) -> (r: Result<(Vec<ResolvedArtifact>, bool), ResolveError>)
        ensures
            result_view(r) == self@.outcome(),
    {
        if !self.is_done() {
            return Err(ResolveError::Unfinished);
        }
        match self.rate_limited {
            Some(message) => Err(ResolveError::RateLimited(message)),
            None => Ok((self.artifacts, self.failed)),
        }
    }
}

} // verus!
