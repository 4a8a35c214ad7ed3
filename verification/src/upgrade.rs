//! Resolving a whole profile, and reconciling the output directory with it.

use crate::identifier::{ModIdentifier, ModIdentifierView, ModLoader};
use crate::markers::{
    dir_views, is_jar, is_jar_name, rename_views, renames, scan_markers, slug_set, DirEntry,
    DirEntryView, Rename,
};
use crate::overrides::OverrideMap;
use crate::pool::{
    artifact_views, lemma_complete_covers, lemma_complete_wf, lemma_dispatch_covers,
    lemma_dispatch_wf, lemma_skip_seen, result_view, Lookup, LookupView, Pool, PoolView,
    ResolveError, ResolvedArtifact, ResolvedArtifactView,
};
use crate::profile::{mod_views, string_views, Mod, ModView, Profile};
use crate::text::chars_of;
use vstd::prelude::*;
use vstd::utf8::encode_utf8;

verus! {

/// What the lookup of one project ends in, known ahead of the run.
#[derive(Debug)]
pub struct IndexEntry {
    pub identifier: ModIdentifier,
    pub outcome: Lookup,
}

/// What an [`IndexEntry`] holds, as mathematical values.
pub struct IndexEntryView {
    pub identifier: ModIdentifierView,
    pub outcome: LookupView,
}

impl View for IndexEntry {
    type V = IndexEntryView;

    open spec fn view(&self) -> IndexEntryView {
        IndexEntryView { identifier: self.identifier@, outcome: self.outcome@ }
    }
}

/// The views of a sequence of index entries, in order.
pub open spec fn index_views(s: Seq<IndexEntry>) -> Seq<IndexEntryView> {
    s.map_values(|e: IndexEntry| e@)
}

/// The message of the failure that a project without an index entry ends in.
pub open spec fn not_indexed() -> Seq<char> {
    "The project is not in the index"@
}

/// What the lookup of `id` ends in according to `index`: the outcome of the
/// first entry for `id`, or a failure where there is none.
pub open spec fn lookup_in(index: Seq<IndexEntryView>, id: ModIdentifierView) -> LookupView
    decreases index.len(),
{
    if index.len() == 0 {
        LookupView::Failed(not_indexed())
    } else if index[0].identifier == id {
        index[0].outcome
    } else {
        lookup_in(index.drop_first(), id)
    }
}

/// The number of dependencies an outcome reports.
pub open spec fn dependency_count(outcome: LookupView) -> nat {
    match outcome {
        LookupView::Found { dependencies, .. } => dependencies.len(),
        _ => 0,
    }
}

/// The number of dependencies that the entries of `index` report whose
/// project is not in `seen`: a bound on what a run can still add to the
/// queue.
pub open spec fn unseen_weight(index: Seq<IndexEntryView>, seen: Seq<ModIdentifierView>) -> nat
    decreases index.len(),
{
    if index.len() == 0 {
        0
    } else {
        let here = if seen.contains(index[0].identifier) {
            0
        } else {
            dependency_count(index[0].outcome)
        };
        here + unseen_weight(index.drop_first(), seen)
    }
}

/// Seeing one more project does not raise the weight.
pub proof fn lemma_weight_monotonic(
    index: Seq<IndexEntryView>,
    seen: Seq<ModIdentifierView>,
    id: ModIdentifierView,
)
    ensures
        unseen_weight(index, seen.push(id)) <= unseen_weight(index, seen),
    decreases index.len(),
{
    if index.len() > 0 {
        lemma_weight_monotonic(index.drop_first(), seen, id);
        if seen.contains(index[0].identifier) {
            let j = choose|j: int| 0 <= j < seen.len() && seen[j] == index[0].identifier;
            assert(seen.push(id)[j] == index[0].identifier);
        }
    }
}

/// Seeing a project for the first time lowers the weight by at least the
/// number of dependencies its lookup reports.
pub proof fn lemma_weight_pays(
    index: Seq<IndexEntryView>,
    seen: Seq<ModIdentifierView>,
    id: ModIdentifierView,
)
    requires
        !seen.contains(id),
    ensures
        unseen_weight(index, seen.push(id)) + dependency_count(lookup_in(index, id)) <= unseen_weight(
            index,
            seen,
        ),
    decreases index.len(),
{
    if index.len() > 0 {
        if index[0].identifier == id {
            lemma_weight_monotonic(index.drop_first(), seen, id);
            assert(seen.push(id)[seen.len() as int] == id);
        } else {
            lemma_weight_pays(index.drop_first(), seen, id);
            if seen.push(id).contains(index[0].identifier) {
                let j = choose|j: int|
                    0 <= j < seen.push(id).len() && seen.push(id)[j] == index[0].identifier;
                assert(seen[j] == index[0].identifier);
            }
            if seen.contains(index[0].identifier) {
                let j = choose|j: int| 0 <= j < seen.len() && seen[j] == index[0].identifier;
                assert(seen.push(id)[j] == index[0].identifier);
            }
        }
    }
}

/// A bound on the number of mods a run from `p` against `index` can still
/// take from the queue.
pub open spec fn budget(p: PoolView, index: Seq<IndexEntryView>) -> nat {
    p.queue.len() + unseen_weight(index, p.seen)
}

/// Handing out a mod and reporting its lookup back at once lowers the
/// budget.
pub proof fn lemma_round_lowers_budget(p: PoolView, index: Seq<IndexEntryView>)
    requires
        p.dispatch().1 is Some,
    ensures
        budget(
            p.dispatch().0.complete(
                p.dispatch().1->0.identifier,
                lookup_in(index, p.dispatch().1->0.identifier),
            ),
            index,
        ) < budget(p, index),
{
    let id = p.dispatch().1->0.identifier;
    lemma_skip_seen(p.queue, p.seen);
    lemma_weight_pays(index, p.seen, id);
}

/// The state in which a run ends that starts in `p` and looks the mods up
/// one after the other, each lookup ending as `index` says.
pub open spec fn run(p: PoolView, index: Seq<IndexEntryView>) -> PoolView
    decreases budget(p, index),
{
    match p.dispatch().1 {
        None => p.dispatch().0,
        Some(m) => {
            proof {
                lemma_round_lowers_budget(p, index);
            }
            run(p.dispatch().0.complete(m.identifier, lookup_in(index, m.identifier)), index)
        },
    }
}

/// A run from a well-formed state ends in a well-formed state, with the
/// overrides it started with.
pub proof fn lemma_run_wf(p: PoolView, index: Seq<IndexEntryView>)
    requires
        p.wf(),
    ensures
        run(p, index).wf(),
        run(p, index).overrides == p.overrides,
    decreases budget(p, index),
{
    lemma_dispatch_wf(p);
    match p.dispatch().1 {
        None => {},
        Some(m) => {
            let next = p.dispatch().0.complete(m.identifier, lookup_in(index, m.identifier));
            lemma_complete_wf(p.dispatch().0, m.identifier, lookup_in(index, m.identifier));
            lemma_round_lowers_budget(p, index);
            lemma_run_wf(next, index);
        },
    }
}

/// Termination: whatever the index holds, duplicate and circular
/// dependencies included, a run comes to its end, and at its end the pool is
/// done: nothing is in flight, and the queue is empty unless a lookup was
/// refused for rate limiting.
pub proof fn lemma_run_ends_done(p: PoolView, index: Seq<IndexEntryView>)
    requires
        p.in_flight =~= Set::empty(),
    ensures
        run(p, index).is_done(),
    decreases budget(p, index),
{
    match p.dispatch().1 {
        None => {},
        Some(m) => {
            let next = p.dispatch().0.complete(m.identifier, lookup_in(index, m.identifier));
            assert(next.in_flight =~= Set::empty());
            lemma_round_lowers_budget(p, index);
            lemma_run_ends_done(next, index);
        },
    }
}

/// A run that no rate-limit refusal cut short has handed out every project
/// that was seen or queued when it started.
pub proof fn lemma_run_covers(p: PoolView, index: Seq<IndexEntryView>, id: ModIdentifierView)
    requires
        p.covers(id),
        run(p, index).rate_limited is None,
    ensures
        run(p, index).seen.contains(id),
    decreases budget(p, index),
{
    lemma_dispatch_covers(p, id);
    lemma_skip_seen(p.queue, p.seen);
    match p.dispatch().1 {
        None => {
            assert(crate::profile::identifiers(p.dispatch().0.queue) =~= Seq::empty());
        },
        Some(m) => {
            let outcome = lookup_in(index, m.identifier);
            lemma_complete_covers(p.dispatch().0, m.identifier, outcome, id);
            lemma_round_lowers_budget(p, index);
            lemma_run_covers(p.dispatch().0.complete(m.identifier, outcome), index, id);
        },
    }
}

/// The artifact that the lookup of `id` gives where it finds a file.
pub open spec fn artifact_of(id: ModIdentifierView, outcome: LookupView) -> ResolvedArtifactView {
    ResolvedArtifactView {
        source: id,
        filename: outcome->filename,
        url: outcome->url,
        output: outcome->output,
        dependencies: outcome->dependencies,
    }
}

/// The pool holds what the lookups of the identifiers handed out ended in,
/// as `index` says: an artifact for every one whose lookup found a file, and
/// no other artifact; the failure flag exactly if the lookup of one failed;
/// and a refusal exactly if the lookup of one was refused.
pub open spec fn accounts_for(p: PoolView, index: Seq<IndexEntryView>) -> bool {
    &&& forall|j: int|
        0 <= j < p.seen.len() && lookup_in(index, #[trigger] p.seen[j]) is Found
            ==> p.artifacts.contains(artifact_of(p.seen[j], lookup_in(index, p.seen[j])))
    &&& forall|i: int|
        0 <= i < p.artifacts.len() ==> p.seen.contains((#[trigger] p.artifacts[i]).source)
            && lookup_in(index, p.artifacts[i].source) is Found && p.artifacts[i] == artifact_of(
            p.artifacts[i].source,
            lookup_in(index, p.artifacts[i].source),
        )
    &&& p.failed <==> exists|j: int|
        0 <= j < p.seen.len() && lookup_in(index, #[trigger] p.seen[j]) is Failed
    &&& p.rate_limited is Some <==> exists|j: int|
        0 <= j < p.seen.len() && lookup_in(index, #[trigger] p.seen[j]) is RateLimited
}

/// One round of a run keeps the account: after a mod was handed out and its
/// lookup reported back as `index` says, the pool again holds what the
/// lookups of the identifiers handed out ended in.
pub proof fn lemma_round_accounts(p: PoolView, index: Seq<IndexEntryView>)
    requires
        accounts_for(p, index),
        p.dispatch().1 is Some,
    ensures
        accounts_for(
            p.dispatch().0.complete(
                p.dispatch().1->0.identifier,
                lookup_in(index, p.dispatch().1->0.identifier),
            ),
            index,
        ),
{
    let id = p.dispatch().1->0.identifier;
    let outcome = lookup_in(index, id);
    let q = p.dispatch().0.complete(id, outcome);
    let n = p.seen.len() as int;
    assert(q.seen == p.seen.push(id));
    assert(q.seen[n] == id);
    assert forall|x: ModIdentifierView| p.seen.contains(x) implies q.seen.contains(x) by {
        let j = choose|j: int| 0 <= j < p.seen.len() && p.seen[j] == x;
        assert(q.seen[j] == x);
    }
    assert forall|a: ResolvedArtifactView| p.artifacts.contains(a) implies q.artifacts.contains(
        a,
    ) by {
        let i = choose|i: int| 0 <= i < p.artifacts.len() && p.artifacts[i] == a;
        assert(q.artifacts[i] == a);
    }
    if outcome is Found {
        assert(q.artifacts[p.artifacts.len() as int] == artifact_of(id, outcome));
    }
    assert forall|j: int|
        0 <= j < q.seen.len() && lookup_in(index, #[trigger] q.seen[j]) is Found implies q.artifacts.contains(
        artifact_of(q.seen[j], lookup_in(index, q.seen[j])),
    ) by {
        if j < n {
            assert(q.seen[j] == p.seen[j]);
        }
    }
    assert forall|i: int| 0 <= i < q.artifacts.len() implies q.seen.contains(
        (#[trigger] q.artifacts[i]).source,
    ) && lookup_in(index, q.artifacts[i].source) is Found && q.artifacts[i] == artifact_of(
        q.artifacts[i].source,
        lookup_in(index, q.artifacts[i].source),
    ) by {
        if i < p.artifacts.len() {
            assert(q.artifacts[i] == p.artifacts[i]);
        }
    }
    assert(q.failed <==> exists|j: int|
        0 <= j < q.seen.len() && lookup_in(index, #[trigger] q.seen[j]) is Failed) by {
        if p.failed {
            let j = choose|j: int|
                0 <= j < p.seen.len() && lookup_in(index, #[trigger] p.seen[j]) is Failed;
            assert(q.seen[j] == p.seen[j]);
        }
        if exists|j: int| 0 <= j < q.seen.len() && lookup_in(index, #[trigger] q.seen[j]) is Failed {
            let j = choose|j: int|
                0 <= j < q.seen.len() && lookup_in(index, #[trigger] q.seen[j]) is Failed;
            if j < n {
                assert(q.seen[j] == p.seen[j]);
            }
        }
    }
    assert(q.rate_limited is Some <==> exists|j: int|
        0 <= j < q.seen.len() && lookup_in(index, #[trigger] q.seen[j]) is RateLimited) by {
        if p.rate_limited is Some {
            let j = choose|j: int|
                0 <= j < p.seen.len() && lookup_in(index, #[trigger] p.seen[j]) is RateLimited;
            assert(q.seen[j] == p.seen[j]);
        }
        if exists|j: int|
            0 <= j < q.seen.len() && lookup_in(index, #[trigger] q.seen[j]) is RateLimited {
            let j = choose|j: int|
                0 <= j < q.seen.len() && lookup_in(index, #[trigger] q.seen[j]) is RateLimited;
            if j < n {
                assert(q.seen[j] == p.seen[j]);
            }
        }
    }
}

/// A run keeps the account: at its end the pool holds an artifact for every
/// identifier handed out whose lookup found a file, and no other artifact;
/// the failure flag is set exactly if the lookup of an identifier handed out
/// failed; and a refusal is recorded exactly if one was refused.
pub proof fn lemma_run_accounts(p: PoolView, index: Seq<IndexEntryView>)
    requires
        accounts_for(p, index),
    ensures
        accounts_for(run(p, index), index),
    decreases budget(p, index),
{
    match p.dispatch().1 {
        None => {},
        Some(m) => {
            lemma_round_accounts(p, index);
            lemma_round_lowers_budget(p, index);
            lemma_run_accounts(
                p.dispatch().0.complete(m.identifier, lookup_in(index, m.identifier)),
                index,
            );
        },
    }
}

/// What the resolution of a profile gives, in full: the run from the
/// profile's active mods ends done and well formed; it accounts for every
/// identifier it handed out; and, unless a lookup was refused for rate
/// limiting, it handed out every active mod.
pub proof fn lemma_resolution_complete(
    mods: Seq<ModView>,
    overrides: Map<Seq<char>, ModIdentifierView>,
    index: Seq<IndexEntryView>,
)
    ensures
        run(PoolView::initial(mods, overrides), index).is_done(),
        run(PoolView::initial(mods, overrides), index).wf(),
        accounts_for(run(PoolView::initial(mods, overrides), index), index),
        run(PoolView::initial(mods, overrides), index).rate_limited is None ==> forall|i: int|
            0 <= i < mods.len() ==> run(PoolView::initial(mods, overrides), index).seen.contains(
                (#[trigger] mods[i]).identifier,
            ),
{
    let start = PoolView::initial(mods, overrides);
    lemma_run_ends_done(start, index);
    lemma_run_wf(start, index);
    lemma_run_accounts(start, index);
    if run(start, index).rate_limited is None {
        assert forall|i: int| 0 <= i < mods.len() implies run(start, index).seen.contains(
            (#[trigger] mods[i]).identifier,
        ) by {
            assert(crate::profile::identifiers(start.queue)[i] == mods[i].identifier);
            lemma_run_covers(start, index, mods[i].identifier);
        }
    }
}

/// A copy of a sequence of identifiers.
pub fn clone_ids(v: &Vec<ModIdentifier>) -> (r: Vec<ModIdentifier>)
    ensures
        r@ == v@,
{
    let mut r: Vec<ModIdentifier> = Vec::new();
    let mut i: usize = 0;
    while i < v.len()
        invariant
            i <= v.len(),
            r@ == v@.take(i as int),
        decreases v.len() - i,
    {
        r.push(v[i].clone());
        i += 1;
        assert(v@.take(i as int) == v@.take(i as int - 1).push(v@[i as int - 1]));
    }
    assert(v@.take(i as int) == v@);
    r
}

/// A copy of a sequence of mods.
pub fn clone_mods(v: &Vec<Mod>) -> (r: Vec<Mod>)
    ensures
        r@ == v@,
{
    let mut r: Vec<Mod> = Vec::new();
    let mut i: usize = 0;
    while i < v.len()
        invariant
            i <= v.len(),
            r@ == v@.take(i as int),
        decreases v.len() - i,
    {
        r.push(v[i].clone());
        i += 1;
        assert(v@.take(i as int) == v@.take(i as int - 1).push(v@[i as int - 1]));
    }
    assert(v@.take(i as int) == v@);
    r
}

impl Clone for Lookup {
    fn clone(&self) -> (r: Self)
        ensures
            r@ == self@,
    {
        match self {
            Lookup::Found { filename, url, output, dependencies } => Lookup::Found {
                filename: filename.clone(),
                url: url.clone(),
                output: output.clone(),
                dependencies: clone_ids(dependencies),
            },
            Lookup::RateLimited(message) => Lookup::RateLimited(message.clone()),
            Lookup::Failed(message) => Lookup::Failed(message.clone()),
        }
    }
}

/// What the lookup of `id` ends in according to `index`.
pub fn lookup(index: &Vec<IndexEntry>, id: &ModIdentifier) -> (r: Lookup)
    ensures
        r@ == lookup_in(index_views(index@), id@),
{
    let ghost all = index_views(index@);
    let mut i: usize = 0;
    assert(all.subrange(0, all.len() as int) =~= all);
    while i < index.len()
        invariant
            i <= index.len(),
            all == index_views(index@),
            lookup_in(all.subrange(i as int, all.len() as int), id@) == lookup_in(all, id@),
        decreases index.len() - i,
    {
        let ghost here = all.subrange(i as int, all.len() as int);
        assert(here[0] == index@[i as int]@);
        if index[i].identifier == *id {
            return index[i].outcome.clone();
        }
        assert(here.drop_first() =~= all.subrange(i as int + 1, all.len() as int));
        i += 1;
    }
    assert(all.subrange(i as int, all.len() as int).len() == 0);
    Lookup::Failed("The project is not in the index".to_string())
}

/// Resolves the active mods of `profile` and all they depend on, taking the
/// outcome of each lookup from `index`.
///
/// The mods are looked up one after the other. The result is that of the
/// pool at the end of that run: the artifacts found, with the flag that says
/// whether a lookup failed; or the refusal, if a lookup was refused for rate
/// limiting.
pub fn get_platform_downloadables(
    profile: &Profile,
    overrides: &OverrideMap,
    index: &Vec<IndexEntry>,
) -> (r: Result<(Vec<ResolvedArtifact>, bool), ResolveError>)
    ensures
        result_view(r) == run(
            PoolView::initial(profile@.mods, overrides@),
            index_views(index@),
        ).outcome(),
        run(PoolView::initial(profile@.mods, overrides@), index_views(index@)).is_done(),
        accounts_for(
            run(PoolView::initial(profile@.mods, overrides@), index_views(index@)),
            index_views(index@),
        ),
{
    let ghost start = PoolView::initial(profile@.mods, overrides@);
    let ghost all = index_views(index@);
    let mut pool = Pool::new(clone_mods(&profile.mods), overrides.clone());
    loop
        invariant
            pool.wf(),
            pool@.in_flight =~= Set::empty(),
            all == index_views(index@),
            run(pool@, all) == run(start, all),
        ensures
            pool@ == run(start, all),
        decreases budget(pool@, all),
    {
        let ghost before = pool@;
        match pool.next_dispatch() {
            None => {
                break ;
            },
            Some(m) => {
                proof {
                    lemma_round_lowers_budget(before, all);
                }
                let outcome = lookup(index, &m.identifier);
                pool.complete(&m.identifier, outcome);
            },
        }
    }
    proof {
        lemma_resolution_complete(profile@.mods, overrides@, all);
    }
    pool.finish()
}

/// The length in bytes of the longest name among `mods`; zero where there
/// is no mod.
pub open spec fn longest_name(mods: Seq<ModView>) -> nat
    decreases mods.len(),
{
    if mods.len() == 0 {
        0
    } else {
        let here = encode_utf8(mods.last().name).len();
        let before = longest_name(mods.drop_last());
        if here > before {
            here
        } else {
            before
        }
    }
}

/// The width to which the names of `mods` are padded in the report of a
/// run: the length of the longest name, but no less than 20 and no more
/// than 50.
pub open spec fn name_width(mods: Seq<ModView>) -> nat {
    if longest_name(mods) < 20 {
        20
    } else if longest_name(mods) > 50 {
        50
    } else {
        longest_name(mods)
    }
}

/// The width to which the names of `mods` are padded in the report of a run.
pub fn pad_len(mods: &Vec<Mod>) -> (r: usize)
    ensures
        r == name_width(mod_views(mods@)),
{
    let ghost all = mod_views(mods@);
    let mut longest: usize = 0;
    let mut i: usize = 0;
    while i < mods.len()
        invariant
            i <= mods.len(),
            all == mod_views(mods@),
            longest == longest_name(all.take(i as int)),
        decreases mods.len() - i,
    {
        assert(all.take(i as int + 1).drop_last() =~= all.take(i as int));
        assert(all.take(i as int + 1).last() == mods@[i as int]@);
        let here = mods[i].name.as_str().as_bytes().len();
        if here > longest {
            longest = here;
        }
        i += 1;
    }
    assert(all.take(i as int) =~= all);
    if longest < 20 {
        20
    } else if longest > 50 {
        50
    } else {
        longest
    }
}

/// The names of the installed mods among `entries`, in the order of the
/// entries.
pub open spec fn jar_names(entries: Seq<DirEntryView>) -> Seq<Seq<char>>
    decreases entries.len(),
{
    if entries.len() == 0 {
        Seq::empty()
    } else if entries.last().is_file && is_jar(entries.last().name) {
        jar_names(entries.drop_last()).push(entries.last().name)
    } else {
        jar_names(entries.drop_last())
    }
}

/// The names of the installed mods among `entries`.
pub fn jar_files(entries: &Vec<DirEntry>) -> (r: Vec<String>)
    ensures
        string_views(r@) == jar_names(dir_views(entries@)),
{
    let ghost all = dir_views(entries@);
    let mut out: Vec<String> = Vec::new();
    let mut i: usize = 0;
    assert(string_views(out@) =~= jar_names(all.take(0)));
    while i < entries.len()
        invariant
            i <= entries.len(),
            all == dir_views(entries@),
            string_views(out@) == jar_names(all.take(i as int)),
        decreases entries.len() - i,
    {
        let ghost so_far = string_views(out@);
        assert(all.take(i as int + 1).drop_last() =~= all.take(i as int));
        assert(all.take(i as int + 1).last() == entries@[i as int]@);
        if entries[i].is_file {
            let chars = chars_of(entries[i].name.as_str());
            if is_jar_name(&chars) {
                let name = entries[i].name.clone();
                out.push(name);
                assert(string_views(out@) =~= so_far.push(entries@[i as int]@.name));
            }
        }
        i += 1;
    }
    assert(all.take(i as int) =~= all);
    out
}

/// What is to be done to the output directory before the mod files are
/// brought up to date.
#[derive(Debug)]
pub struct UpgradePlan {
    /// The files of the user's own directory to install beside the mods.
    pub to_install: Vec<String>,
    /// The files to rename so that the files of the disabled mods, and only
    /// they, carry the disabled marker.
    pub renames: Vec<Rename>,
}

/// Whether the files that the user put into the directory `user` are
/// installed beside the mods: they are, unless the profile prefers Quilt.
pub open spec fn installs_user_files(mod_loaders: Seq<ModLoader>) -> bool {
    !(mod_loaders.len() > 0 && mod_loaders[0] == ModLoader::Quilt)
}

/// Plans the reconciliation of the output directory of `profile`.
///
/// `user_entries` are the entries of the user's own directory, none where
/// there is no such directory, and `output_entries` those of the output
/// directory. The installed mods among the user's files are installed unless
/// the profile prefers Quilt. The files of the output directory are renamed
/// as the scan for the disabled marker says.
pub fn upgrade(profile: &Profile, user_entries: &Vec<DirEntry>, output_entries: &Vec<DirEntry>) -> (plan:
    UpgradePlan)
    ensures
        string_views(plan.to_install@) == if installs_user_files(profile@.mod_loaders) {
            jar_names(dir_views(user_entries@))
        } else {
            Seq::<Seq<char>>::empty()
        },
        rename_views(plan.renames@) == renames(
            dir_views(output_entries@),
            slug_set(profile@.disabled),
        ),
{
    let quilt = match profile.mod_loader() {
        Some(loader) => loader == ModLoader::Quilt,
        None => false,
    };
    let to_install = if quilt {
        let none: Vec<String> = Vec::new();
        assert(string_views(none@) =~= Seq::<Seq<char>>::empty());
        none
    } else {
        jar_files(user_entries)
    };
    let renames = scan_markers(output_entries, &profile.disabled);
    UpgradePlan { to_install, renames }
}

/// The artifact `a`, to be written directly into the output directory under
/// its file name.
pub open spec fn placed(a: ResolvedArtifactView) -> ResolvedArtifactView {
    ResolvedArtifactView { output: a.filename, ..a }
}

/// The artifacts `to_download`, each to be written directly into the output
/// directory under its file name; or nothing, where there is neither a file
/// to download nor one to install and all is up to date.
pub fn finish_upgrade(to_download: &Vec<ResolvedArtifact>, to_install: &Vec<String>) -> (r: Option<
    Vec<ResolvedArtifact>,
>)
    ensures
        match r {
            Some(placed_all) => {
                &&& to_download@.len() + to_install@.len() > 0
                &&& artifact_views(placed_all@) == artifact_views(to_download@).map_values(
                    |a: ResolvedArtifactView| placed(a),
                )
            },
            None => to_download@.len() == 0 && to_install@.len() == 0,
        },
{
    if to_download.len() == 0 && to_install.len() == 0 {
        return None;
    }
    let ghost all = artifact_views(to_download@);
    let mut out: Vec<ResolvedArtifact> = Vec::new();
    let mut i: usize = 0;
    while i < to_download.len()
        invariant
            i <= to_download.len(),
            all == artifact_views(to_download@),
            artifact_views(out@) == all.map_values(|a: ResolvedArtifactView| placed(a)).take(
                i as int,
            ),
        decreases to_download.len() - i,
    {
        let ghost so_far = artifact_views(out@);
        let a = &to_download[i];
        let b = ResolvedArtifact {
            source: a.source.clone(),
            filename: a.filename.clone(),
            url: a.url.clone(),
            output: a.filename.clone(),
            dependencies: clone_ids(&a.dependencies),
        };
        out.push(b);
        assert(artifact_views(out@) =~= so_far.push(placed(all[i as int])));
        i += 1;
    }
    Some(out)
}

} // verus!
