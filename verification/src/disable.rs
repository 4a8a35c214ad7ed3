//! Moving mods between the active and the disabled list of a profile.

use crate::identifier::{ModIdentifier, ModIdentifierView};
use crate::profile::{identifiers, mod_views, string_views, Mod, ModView, Profile, ProfileView};
use crate::text::{
    decimal, decimal_string, decimal_usize, eq_ignore_ascii_case, eq_ignore_case, joined, pad_right,
    padded, str_eq,
};
use vstd::multiset::Multiset;
use vstd::prelude::*;
use vstd::seq_lib::{lemma_multiset_commutative, to_multiset_build, to_multiset_contains, to_multiset_remove, to_multiset_update};

verus! {

/// The user's word `target` names the project `id`: it is the project id,
/// or, for a repository, `owner/repo` up to the case of ASCII letters.
pub open spec fn identifier_matches(id: ModIdentifierView, target: Seq<char>) -> bool {
    match id {
        ModIdentifierView::CurseForgeProject(n) => decimal(n) == target,
        ModIdentifierView::PinnedCurseForgeProject(n, _) => decimal(n) == target,
        ModIdentifierView::ModrinthProject(s) => s == target,
        ModIdentifierView::PinnedModrinthProject(s, _) => s == target,
        ModIdentifierView::GitHubRepository(owner, repo) => eq_ignore_case(
            owner + seq!['/'] + repo,
            target,
        ),
        ModIdentifierView::PinnedGitHubRepository((owner, repo), _) => eq_ignore_case(
            owner + seq!['/'] + repo,
            target,
        ),
    }
}

/// The user's word `target` names the mod `m`: by its name or by its slug,
/// up to the case of ASCII letters, or by its project.
pub open spec fn matches_target(m: ModView, target: Seq<char>) -> bool {
    ||| eq_ignore_case(m.name, target)
    ||| identifier_matches(m.identifier, target)
    ||| (m.slug matches Some(slug) && eq_ignore_case(target, slug))
}

/// Some mod of `mods` is named by `target`.
pub open spec fn has_match(mods: Seq<ModView>, target: Seq<char>) -> bool {
    exists|i: int| 0 <= i < mods.len() && matches_target(#[trigger] mods[i], target)
}

/// `i` is the position of the first mod of `mods` that `target` names.
pub open spec fn is_first_match(mods: Seq<ModView>, target: Seq<char>, i: int) -> bool {
    &&& 0 <= i < mods.len()
    &&& matches_target(mods[i], target)
    &&& forall|j: int| 0 <= j < i ==> !matches_target(#[trigger] mods[j], target)
}

/// Every one of `targets` names a mod of `mods`.
pub open spec fn all_present(mods: Seq<ModView>, targets: Seq<Seq<char>>) -> bool {
    forall|k: int| 0 <= k < targets.len() ==> has_match(mods, #[trigger] targets[k])
}

/// `k` is the position of the first of `targets` that names no mod of
/// `mods`.
pub open spec fn is_first_missing(mods: Seq<ModView>, targets: Seq<Seq<char>>, k: int) -> bool {
    &&& 0 <= k < targets.len()
    &&& !has_match(mods, targets[k])
    &&& forall|j: int| 0 <= j < k ==> has_match(mods, #[trigger] targets[j])
}

/// The positions in `mods` that `targets` select: for each target, that of
/// the first mod it names.
pub open spec fn selected(mods: Seq<ModView>, targets: Seq<Seq<char>>) -> Set<int> {
    Set::new(
        |i: int| exists|k: int| 0 <= k < targets.len() && is_first_match(mods, #[trigger] targets[k], i),
    )
}

/// The positions that a list of positions names.
pub open spec fn positions(indices: Seq<usize>) -> Set<int> {
    Set::new(|i: int| exists|k: int| 0 <= k < indices.len() && #[trigger] indices[k] == i)
}

/// Takes the records at the positions of `sel` below `k` out of `a`, from
/// the highest position down, each time moving the last record into the gap.
/// Gives what is left of `a`, and the records taken out in the order they
/// were taken.
pub open spec fn sweep<T>(a: Seq<T>, sel: Set<int>, k: int) -> (Seq<T>, Seq<T>)
    decreases k,
{
    if k <= 0 {
        (a, Seq::empty())
    } else if sel.contains(k - 1) && k - 1 < a.len() {
        let swept = sweep(a.update(k - 1, a.last()).drop_last(), sel, k - 1);
        (swept.0, seq![a[k - 1]] + swept.1)
    } else {
        sweep(a, sel, k - 1)
    }
}

/// The names of a sequence of mods, in order.
pub open spec fn names(s: Seq<ModView>) -> Seq<Seq<char>> {
    s.map_values(|m: ModView| m.name)
}

impl ProfileView {
    /// The profile after the mods that `targets` select among the active
    /// ones were moved to the end of the disabled list.
    pub open spec fn disable(self, targets: Seq<Seq<char>>) -> ProfileView {
        self.disable_at(selected(self.mods, targets))
    }

    /// The profile after the active mods at the positions `sel` were moved
    /// to the end of the disabled list.
    pub open spec fn disable_at(self, sel: Set<int>) -> ProfileView {
        let swept = sweep(self.mods, sel, self.mods.len() as int);
        ProfileView { mods: swept.0, disabled: self.disabled + swept.1, ..self }
    }

    /// The profile after the mods that `targets` select among the disabled
    /// ones were moved to the end of the active list.
    pub open spec fn enable(self, targets: Seq<Seq<char>>) -> ProfileView {
        self.enable_at(selected(self.disabled, targets))
    }

    /// The profile after the disabled mods at the positions `sel` were moved
    /// to the end of the active list.
    pub open spec fn enable_at(self, sel: Set<int>) -> ProfileView {
        let swept = sweep(self.disabled, sel, self.disabled.len() as int);
        ProfileView { mods: self.mods + swept.1, disabled: swept.0, ..self }
    }
}

/// Why a mod could not be moved.
#[derive(Debug)]
pub enum ToggleError {
    /// The word names no mod of the list it was looked for in.
    NotPresent(String),
    /// The position is not one of the list.
    OutOfRange(usize),
}

/// What a [`ToggleError`] holds, as mathematical values.
pub enum ToggleErrorView {
    NotPresent(Seq<char>),
    OutOfRange(int),
}

impl View for ToggleError {
    type V = ToggleErrorView;

    open spec fn view(&self) -> ToggleErrorView {
        match self {
            ToggleError::NotPresent(target) => ToggleErrorView::NotPresent(target@),
            ToggleError::OutOfRange(index) => ToggleErrorView::OutOfRange(*index as int),
        }
    }
}

impl ToggleErrorView {
    /// The text that tells the user of the error.
    pub open spec fn message(self) -> Seq<char> {
        match self {
            ToggleErrorView::NotPresent(target) => "A mod with ID or name "@ + target
                + " is not present in this profile"@,
            ToggleErrorView::OutOfRange(index) => "There is no mod at position "@ + decimal(index),
        }
    }
}

impl ToggleError {
    /// The text that tells the user of the error.
    pub fn message(&self) -> (s: String)
        ensures
            s@ == self@.message(),
    {
        match self {
            ToggleError::NotPresent(target) => {
                let mut s = joined("A mod with ID or name ", target.as_str());
                s.append(" is not present in this profile");
                s
            },
            ToggleError::OutOfRange(index) => {
                let number = decimal_usize(*index);
                joined("There is no mod at position ", number.as_str())
            },
        }
    }
}

/// Whether `target` names the project `id`.
pub fn names_project(id: &ModIdentifier, target: &str) -> (r: bool)
    ensures
        r == identifier_matches(id@, target@),
{
    match id {
        ModIdentifier::CurseForgeProject(n) => {
            let text = decimal_string(*n);
            str_eq(text.as_str(), target)
        },
        ModIdentifier::PinnedCurseForgeProject(n, _) => {
            let text = decimal_string(*n);
            str_eq(text.as_str(), target)
        },
        ModIdentifier::ModrinthProject(s) => str_eq(s.as_str(), target),
        ModIdentifier::PinnedModrinthProject(s, _) => str_eq(s.as_str(), target),
        ModIdentifier::GitHubRepository(_, _) => {
            let text = id.key();
            eq_ignore_ascii_case(text.as_str(), target)
        },
        ModIdentifier::PinnedGitHubRepository(_, _) => {
            let text = id.key();
            eq_ignore_ascii_case(text.as_str(), target)
        },
    }
}

/// Whether `target` names the mod `m`.
pub fn names_mod(m: &Mod, target: &str) -> (r: bool)
    ensures
        r == matches_target(m@, target@),
{
    if eq_ignore_ascii_case(m.name.as_str(), target) {
        return true;
    }
    if names_project(&m.identifier, target) {
        return true;
    }
    match &m.slug {
        Some(slug) => eq_ignore_ascii_case(target, slug.as_str()),
        None => false,
    }
}

/// The position of the first mod of `mods` that `target` names.
pub fn find_target(mods: &Vec<Mod>, target: &str) -> (r: Option<usize>)
    ensures
        match r {
            Some(i) => is_first_match(mod_views(mods@), target@, i as int),
            None => !has_match(mod_views(mods@), target@),
        },
{
    let mut i: usize = 0;
    while i < mods.len()
        invariant
            i <= mods.len(),
            forall|j: int| 0 <= j < i ==> !matches_target(#[trigger] mod_views(mods@)[j], target@),
        decreases mods.len() - i,
    {
        if names_mod(&mods[i], target) {
            return Some(i);
        }
        i += 1;
    }
    None
}

/// For each of `targets`, the position of the first mod of `mods` that it
/// names; or the first of `targets` that names none.
pub fn select_targets(mods: &Vec<Mod>, targets: &Vec<String>) -> (r: Result<Vec<usize>, ToggleError>)
    ensures
        match r {
            Ok(indices) => {
                &&& indices@.len() == targets@.len()
                &&& forall|k: int|
                    0 <= k < targets@.len() ==> is_first_match(
                        mod_views(mods@),
                        #[trigger] string_views(targets@)[k],
                        indices@[k] as int,
                    )
            },
            Err(e) => exists|k: int|
                is_first_missing(mod_views(mods@), string_views(targets@), k) && e@
                    == ToggleErrorView::NotPresent(#[trigger] string_views(targets@)[k]),
        },
{
    let mut indices: Vec<usize> = Vec::new();
    let mut k: usize = 0;
    while k < targets.len()
        invariant
            k <= targets.len(),
            indices@.len() == k,
            forall|j: int|
                0 <= j < k ==> is_first_match(
                    mod_views(mods@),
                    #[trigger] string_views(targets@)[j],
                    indices@[j] as int,
                ),
        decreases targets.len() - k,
    {
        match find_target(mods, targets[k].as_str()) {
            Some(i) => {
                indices.push(i);
            },
            None => {
                let e = ToggleError::NotPresent(targets[k].clone());
                proof {
                    let views = string_views(targets@);
                    assert forall|j: int| 0 <= j < k implies has_match(
                        mod_views(mods@),
                        #[trigger] views[j],
                    ) by {
                        assert(is_first_match(mod_views(mods@), views[j], indices@[j] as int));
                    }
                    assert(is_first_missing(mod_views(mods@), views, k as int));
                    assert(e@ == ToggleErrorView::NotPresent(views[k as int]));
                }
                return Err(e);
            },
        }
        k += 1;
    }
    Ok(indices)
}

/// Moves the records of `from` at the positions `indices` to the end of
/// `to`, from the highest position down, each time moving the last record of
/// `from` into the gap. Gives the names of the records moved, in the order
/// they were moved. A position named twice counts once.
pub fn move_records(from: &mut Vec<Mod>, to: &mut Vec<Mod>, indices: &Vec<usize>) -> (moved: Vec<
    String,
>)
    requires
        forall|k: int| 0 <= k < indices@.len() ==> indices@[k] < old(from)@.len(),
    ensures
        ({
            let swept = sweep(
                mod_views(old(from)@),
                positions(indices@),
                old(from)@.len() as int,
            );
            &&& mod_views(final(from)@) == swept.0
            &&& mod_views(final(to)@) == mod_views(old(to)@) + swept.1
            &&& string_views(moved@) == names(swept.1)
        }),
{
    let n = from.len();
    let ghost sel = positions(indices@);
    let ghost start = mod_views(from@);
    let ghost kept = mod_views(to@);
    let mut flags: Vec<bool> = Vec::new();
    let mut i: usize = 0;
    while i < n
        invariant
            i <= n,
            flags@.len() == i,
            forall|j: int| 0 <= j < i ==> !flags@[j],
        decreases n - i,
    {
        flags.push(false);
        i += 1;
    }
    let mut k: usize = 0;
    while k < indices.len()
        invariant
            k <= indices.len(),
            flags@.len() == n,
            forall|j: int| 0 <= j < indices@.len() ==> indices@[j] < n,
            forall|j: int|
                0 <= j < n ==> (flags@[j] <==> exists|w: int|
                    0 <= w < k && #[trigger] indices@[w] == j),
        decreases indices.len() - k,
    {
        let ghost before = flags@;
        let at = indices[k];
        flags[at] = true;
        proof {
            assert forall|j: int| 0 <= j < n implies (flags@[j] <==> exists|w: int|
                0 <= w < k + 1 && #[trigger] indices@[w] == j) by {
                if j == at {
                    assert(indices@[k as int] == j);
                } else {
                    if before[j] {
                        let w = choose|w: int| 0 <= w < k && #[trigger] indices@[w] == j;
                        assert(indices@[w] == j);
                    }
                }
            }
        }
        k += 1;
    }
    assert forall|j: int| 0 <= j < n implies flags@[j] == sel.contains(j) by {}
    let mut moved: Vec<String> = Vec::new();
    let ghost taken: Seq<ModView> = Seq::empty();
    let mut i: usize = n;
    assert(mod_views(to@) =~= kept + taken);
    assert(string_views(moved@) =~= names(taken));
    assert(taken + sweep(start, sel, n as int).1 =~= sweep(start, sel, n as int).1);
    while i > 0
        invariant
            i <= n,
            i <= from@.len(),
            flags@.len() == n,
            forall|j: int| 0 <= j < n ==> flags@[j] == sel.contains(j),
            sweep(start, sel, n as int).0 == sweep(mod_views(from@), sel, i as int).0,
            sweep(start, sel, n as int).1 == taken + sweep(mod_views(from@), sel, i as int).1,
            mod_views(to@) == kept + taken,
            string_views(moved@) == names(taken),
        decreases i,
    {
        i -= 1;
        if flags[i] {
            let ghost before = mod_views(from@);
            let ghost target = mod_views(to@);
            let ghost listed = string_views(moved@);
            let m = from.swap_remove(i);
            proof {
                assert(mod_views(from@) =~= before.update(i as int, before.last()).drop_last());
                assert(before[i as int] == m@);
                let rest = sweep(mod_views(from@), sel, i as int);
                assert(sweep(before, sel, i as int + 1) == (rest.0, seq![m@] + rest.1));
                assert(taken + (seq![m@] + rest.1) =~= taken.push(m@) + rest.1);
                taken = taken.push(m@);
            }
            moved.push(m.name.clone());
            to.push(m);
            assert(mod_views(to@) =~= target.push(m@));
            assert(string_views(moved@) =~= listed.push(m@.name));
            assert(mod_views(to@) =~= kept + taken);
            assert(string_views(moved@) =~= names(taken));
        } else {
            assert(sweep(mod_views(from@), sel, i as int + 1) == sweep(
                mod_views(from@),
                sel,
                i as int,
            ));
        }
    }
    assert(taken + sweep(mod_views(from@), sel, 0).1 =~= taken);
    moved
}

/// Taking a record out of a sequence by moving the last record into its
/// place takes one copy of that record out of the records the sequence
/// holds.
pub proof fn lemma_swap_remove_multiset<T>(a: Seq<T>, i: int)
    requires
        0 <= i < a.len(),
    ensures
        a.update(i, a.last()).drop_last().to_multiset() == a.to_multiset().remove(a[i]),
{
    let moved = a.update(i, a.last());
    assert(moved.drop_last() =~= moved.remove(a.len() - 1));
    to_multiset_remove(moved, a.len() - 1);
    if i == a.len() - 1 {
        assert(moved =~= a);
    } else {
        to_multiset_update(a, i, a.last());
        to_multiset_contains(a, a[i]);
        to_multiset_contains(a, a.last());
        assert(a.contains(a[i]));
        assert(a.contains(a.last()));
        assert(a.to_multiset().insert(a.last()).remove(a[i]).remove(a.last())
            =~= a.to_multiset().remove(a[i]));
    }
}

/// A sweep loses and invents nothing: what is left and what was taken out
/// are together the records the sequence held.
pub proof fn lemma_sweep_conserves<T>(a: Seq<T>, sel: Set<int>, k: int)
    requires
        k <= a.len(),
    ensures
        sweep(a, sel, k).0.to_multiset().add(sweep(a, sel, k).1.to_multiset()) == a.to_multiset(),
        sweep(a, sel, k).0.len() + sweep(a, sel, k).1.len() == a.len(),
    decreases k,
{
    if k <= 0 {
        assert(Seq::<T>::empty().to_multiset() =~= Multiset::empty()) by {
            vstd::seq_lib::to_multiset_len(Seq::<T>::empty());
        }
        assert(a.to_multiset().add(Multiset::empty()) =~= a.to_multiset());
    } else if sel.contains(k - 1) && k - 1 < a.len() {
        let b = a.update(k - 1, a.last()).drop_last();
        let swept = sweep(b, sel, k - 1);
        lemma_sweep_conserves(b, sel, k - 1);
        lemma_swap_remove_multiset(a, k - 1);
        lemma_multiset_commutative(seq![a[k - 1]], swept.1);
        assert(seq![a[k - 1]] =~= Seq::<T>::empty().push(a[k - 1]));
        to_multiset_build(Seq::<T>::empty(), a[k - 1]);
        assert(Seq::<T>::empty().to_multiset() =~= Multiset::empty()) by {
            vstd::seq_lib::to_multiset_len(Seq::<T>::empty());
        }
        to_multiset_contains(a, a[k - 1]);
        assert(a.contains(a[k - 1]));
        let x = a[k - 1];
        let one = Multiset::<T>::empty().insert(x);
        assert(seq![x].to_multiset() =~= one);
        assert((seq![x] + swept.1).to_multiset() =~= one.add(swept.1.to_multiset()));
        assert(b.to_multiset() =~= a.to_multiset().remove(x));
        assert(a.to_multiset().count(x) > 0);
        assert(a.to_multiset().remove(x).add(one) =~= a.to_multiset());
        assert(swept.0.to_multiset().add(one.add(swept.1.to_multiset())) =~= swept.0.to_multiset().add(
            swept.1.to_multiset(),
        ).add(one));
    } else {
        lemma_sweep_conserves(a, sel, k - 1);
    }
}

/// Two sequences that hold the same records, each as often as the other,
/// still do so after a function was applied to every record.
pub proof fn lemma_map_permutation<A, B>(s: Seq<A>, t: Seq<A>, f: spec_fn(A) -> B)
    requires
        s.to_multiset() == t.to_multiset(),
    ensures
        s.map_values(f).to_multiset() == t.map_values(f).to_multiset(),
    decreases s.len(),
{
    vstd::seq_lib::to_multiset_len(s);
    vstd::seq_lib::to_multiset_len(t);
    if s.len() == 0 {
        assert(s.map_values(f) =~= t.map_values(f));
    } else {
        let x = s.last();
        let s0 = s.drop_last();
        assert(s =~= s0.push(x));
        to_multiset_build(s0, x);
        to_multiset_contains(t, x);
        assert(t.to_multiset().count(x) > 0);
        let j = choose|j: int| 0 <= j < t.len() && t[j] == x;
        let t0 = t.remove(j);
        to_multiset_remove(t, j);
        assert(s0.to_multiset() =~= t0.to_multiset());
        lemma_map_permutation(s0, t0, f);
        assert(s.map_values(f) =~= s0.map_values(f).push(f(x)));
        to_multiset_build(s0.map_values(f), f(x));
        assert(t0.map_values(f) =~= t.map_values(f).remove(j));
        to_multiset_remove(t.map_values(f), j);
        to_multiset_contains(t.map_values(f), f(x));
        assert(t.map_values(f)[j] == f(x));
        assert(t.map_values(f).contains(f(x)));
        assert(t.map_values(f).to_multiset().remove(f(x)).insert(f(x)) =~= t.map_values(
            f,
        ).to_multiset());
    }
}

/// A sequence that holds the same records as one without duplicates has no
/// duplicates either.
pub proof fn lemma_permutation_no_duplicates<A>(s: Seq<A>, t: Seq<A>)
    requires
        s.to_multiset() == t.to_multiset(),
        s.no_duplicates(),
    ensures
        t.no_duplicates(),
{
    s.lemma_multiset_has_no_duplicates();
    t.lemma_multiset_has_no_duplicates_conv();
}

/// Which of two lists comes first does not matter to whether a project is
/// named twice.
pub proof fn lemma_wf_symmetric(a: Seq<ModView>, b: Seq<ModView>)
    requires
        identifiers(a + b).no_duplicates(),
    ensures
        identifiers(b + a).no_duplicates(),
{
    vstd::seq_lib::lemma_seq_union_to_multiset_commutative(a, b);
    lemma_map_permutation(a + b, b + a, |m: ModView| m.identifier);
    lemma_permutation_no_duplicates(identifiers(a + b), identifiers(b + a));
}

/// Moving records from one list of a profile to the other names no project
/// twice that was not named twice before.
pub proof fn lemma_move_keeps_wf(from: Seq<ModView>, to: Seq<ModView>, sel: Set<int>)
    requires
        identifiers(from + to).no_duplicates(),
    ensures
        identifiers(
            sweep(from, sel, from.len() as int).0 + (to + sweep(from, sel, from.len() as int).1),
        ).no_duplicates(),
{
    let swept = sweep(from, sel, from.len() as int);
    lemma_sweep_conserves(from, sel, from.len() as int);
    lemma_multiset_commutative(from, to);
    lemma_multiset_commutative(to, swept.1);
    lemma_multiset_commutative(swept.0, to + swept.1);
    assert((swept.0 + (to + swept.1)).to_multiset() =~= (from + to).to_multiset());
    lemma_map_permutation(from + to, swept.0 + (to + swept.1), |m: ModView| m.identifier);
    lemma_permutation_no_duplicates(
        identifiers(from + to),
        identifiers(swept.0 + (to + swept.1)),
    );
}

/// A sweep over positions of which none is selected changes nothing.
pub proof fn lemma_sweep_none<T>(a: Seq<T>, sel: Set<int>, k: int)
    requires
        forall|j: int| 0 <= j < k ==> !sel.contains(j),
    ensures
        sweep(a, sel, k) == (a, Seq::<T>::empty()),
    decreases k,
{
    if k > 0 {
        lemma_sweep_none(a, sel, k - 1);
    }
}

/// A sweep with one position selected takes out the record at that position
/// and moves the last record into its place.
pub proof fn lemma_sweep_single<T>(a: Seq<T>, i: int, k: int)
    requires
        0 <= i < k <= a.len(),
    ensures
        sweep(a, set![i], k) == (a.update(i, a.last()).drop_last(), seq![a[i]]),
    decreases k,
{
    if k - 1 == i {
        lemma_sweep_none(a.update(i, a.last()).drop_last(), set![i], i);
        assert(seq![a[i]] + Seq::<T>::empty() =~= seq![a[i]]);
    } else {
        lemma_sweep_single(a, i, k - 1);
    }
}

/// One word selects one position: that of the first mod it names.
pub proof fn lemma_selected_single(mods: Seq<ModView>, target: Seq<char>, i: int)
    requires
        is_first_match(mods, target, i),
    ensures
        selected(mods, seq![target]) == set![i],
{
    assert forall|j: int| selected(mods, seq![target]).contains(j) == set![i].contains(j) by {
        if selected(mods, seq![target]).contains(j) {
            let k = choose|k: int|
                0 <= k < seq![target].len() && is_first_match(mods, #[trigger] seq![target][k], j);
            assert(seq![target][k] == target);
            if j < i {
                assert(!matches_target(mods[j], target));
            } else if i < j {
                assert(!matches_target(mods[i], target));
            }
        }
        if j == i {
            assert(is_first_match(mods, seq![target][0], i));
        }
    }
    assert(selected(mods, seq![target]) =~= set![i]);
}

/// The position of the first mod that a word names, where it names one.
pub proof fn lemma_first_match_exists(mods: Seq<ModView>, target: Seq<char>) -> (i: int)
    requires
        has_match(mods, target),
    ensures
        is_first_match(mods, target, i),
    decreases mods.len(),
{
    let w = choose|w: int| 0 <= w < mods.len() && matches_target(#[trigger] mods[w], target);
    if exists|j: int| 0 <= j < w && matches_target(#[trigger] mods[j], target) {
        let j = choose|j: int| 0 <= j < w && matches_target(#[trigger] mods[j], target);
        let front = mods.subrange(0, w);
        assert(front[j] == mods[j]);
        assert(has_match(front, target));
        let i = lemma_first_match_exists(front, target);
        assert(front[i] == mods[i]);
        assert forall|x: int| 0 <= x < i implies !matches_target(#[trigger] mods[x], target) by {
            assert(front[x] == mods[x]);
        }
        i
    } else {
        w
    }
}

/// Disable/enable round trip: disabling a mod and then enabling it under the
/// same word puts the very same record back among the active mods and
/// leaves the disabled list as it was. The active list holds the records it
/// held before; the record that came back stands at its end.
///
/// This holds where the word names no mod that was disabled before: such a
/// mod would be the one that enabling finds first.
pub proof fn lemma_disable_enable_round_trip(p: ProfileView, target: Seq<char>)
    requires
        has_match(p.mods, target),
        !has_match(p.disabled, target),
    ensures
        has_match(p.disable(seq![target]).disabled, target),
        p.disable(seq![target]).enable(seq![target]).disabled == p.disabled,
        p.disable(seq![target]).enable(seq![target]).mods.to_multiset() == p.mods.to_multiset(),
        p.disable(seq![target]).enable(seq![target]).mods.len() == p.mods.len(),
        p.disable(seq![target]).enable(seq![target]) == (ProfileView {
            mods: p.disable(seq![target]).enable(seq![target]).mods,
            ..p
        }),
        p.mods.len() == 1 ==> p.disable(seq![target]).enable(seq![target]) == p,
{
    let i = lemma_first_match_exists(p.mods, target);
    let x = p.mods[i];
    lemma_selected_single(p.mods, target, i);
    lemma_sweep_single(p.mods, i, p.mods.len() as int);
    let q = p.disable(seq![target]);
    let left = p.mods.update(i, p.mods.last()).drop_last();
    assert(q.mods == left);
    assert(q.disabled == p.disabled + seq![x]);
    let n = p.disabled.len() as int;
    assert(q.disabled[n] == x);
    assert(is_first_match(q.disabled, target, n)) by {
        assert forall|j: int| 0 <= j < n implies !matches_target(
            #[trigger] q.disabled[j],
            target,
        ) by {
            assert(q.disabled[j] == p.disabled[j]);
        }
    }
    lemma_selected_single(q.disabled, target, n);
    lemma_sweep_single(q.disabled, n, q.disabled.len() as int);
    let r = q.enable(seq![target]);
    assert(q.disabled.update(n, q.disabled.last()).drop_last() =~= p.disabled);
    assert(r.disabled == p.disabled);
    assert(r.mods == left + seq![x]);
    assert(left + seq![x] =~= left.push(x));
    lemma_swap_remove_multiset(p.mods, i);
    to_multiset_build(left, x);
    to_multiset_contains(p.mods, x);
    assert(p.mods.contains(x));
    assert(p.mods.to_multiset().remove(x).insert(x) =~= p.mods.to_multiset());
    if p.mods.len() == 1 {
        assert(r.mods =~= p.mods);
    }
}

/// The positions that `select_targets` gives are those that the targets
/// select.
pub proof fn lemma_positions_selected(
    mods: Seq<ModView>,
    targets: Seq<Seq<char>>,
    indices: Seq<usize>,
)
    requires
        indices.len() == targets.len(),
        forall|k: int| 0 <= k < targets.len() ==> is_first_match(mods, #[trigger] targets[k], indices[k] as int),
    ensures
        positions(indices) == selected(mods, targets),
{
    assert forall|i: int| positions(indices).contains(i) == selected(mods, targets).contains(i) by {
        if positions(indices).contains(i) {
            let k = choose|k: int| 0 <= k < indices.len() && #[trigger] indices[k] == i;
            assert(is_first_match(mods, targets[k], i));
        }
        if selected(mods, targets).contains(i) {
            let k = choose|k: int|
                0 <= k < targets.len() && is_first_match(mods, #[trigger] targets[k], i);
            assert(is_first_match(mods, targets[k], indices[k] as int));
            if indices[k] < i {
                assert(!matches_target(mods[indices[k] as int], targets[k]));
            } else if i < indices[k] {
                assert(!matches_target(mods[i], targets[k]));
            }
            assert(indices[k] == i);
        }
    }
    assert(positions(indices) =~= selected(mods, targets));
}

/// Disables the mods that `to_disable` names: each word selects the first
/// active mod that it names by name, by project or by slug, and the mods
/// selected move to the end of the disabled list. Gives the names of the
/// mods moved.
///
/// Where a word names no active mod nothing is moved at all, and the error
/// holds the first such word.
pub fn disable(profile: &mut Profile, to_disable: Vec<String>) -> (r: Result<Vec<String>, ToggleError>)
    ensures
        match r {
            Ok(moved) => {
                &&& all_present(old(profile)@.mods, string_views(to_disable@))
                &&& final(profile)@ == old(profile)@.disable(string_views(to_disable@))
                &&& string_views(moved@) == names(
                    sweep(
                        old(profile)@.mods,
                        selected(old(profile)@.mods, string_views(to_disable@)),
                        old(profile)@.mods.len() as int,
                    ).1,
                )
            },
            Err(e) => {
                &&& *final(profile) == *old(profile)
                &&& exists|k: int|
                    is_first_missing(old(profile)@.mods, string_views(to_disable@), k) && e@
                        == ToggleErrorView::NotPresent(#[trigger] string_views(to_disable@)[k])
            },
        },
        old(profile)@.wf() ==> final(profile)@.wf(),
{
    let ghost before = profile@;
    let ghost targets = string_views(to_disable@);
    match select_targets(&profile.mods, &to_disable) {
        Err(e) => Err(e),
        Ok(indices) => {
            proof {
                lemma_positions_selected(before.mods, targets, indices@);
                assert forall|k: int| 0 <= k < targets.len() implies has_match(
                    before.mods,
                    #[trigger] targets[k],
                ) by {
                    assert(is_first_match(before.mods, targets[k], indices@[k] as int));
                }
                assert forall|k: int| 0 <= k < indices@.len() implies indices@[k]
                    < profile.mods@.len() by {
                    assert(is_first_match(before.mods, targets[k], indices@[k] as int));
                }
                if before.wf() {
                    lemma_move_keeps_wf(
                        before.mods,
                        before.disabled,
                        selected(before.mods, targets),
                    );
                }
            }
            let moved = move_records(&mut profile.mods, &mut profile.disabled, &indices);
            Ok(moved)
        },
    }
}

/// Enables the mods that `to_enable` names: each word selects the first
/// disabled mod that it names by name, by project or by slug, and the mods
/// selected move to the end of the active list. Gives the names of the mods
/// moved.
///
/// Where a word names no disabled mod nothing is moved at all, and the error
/// holds the first such word.
pub fn enable(profile: &mut Profile, to_enable: Vec<String>) -> (r: Result<Vec<String>, ToggleError>)
    ensures
        match r {
            Ok(moved) => {
                &&& all_present(old(profile)@.disabled, string_views(to_enable@))
                &&& final(profile)@ == old(profile)@.enable(string_views(to_enable@))
                &&& string_views(moved@) == names(
                    sweep(
                        old(profile)@.disabled,
                        selected(old(profile)@.disabled, string_views(to_enable@)),
                        old(profile)@.disabled.len() as int,
                    ).1,
                )
            },
            Err(e) => {
                &&& *final(profile) == *old(profile)
                &&& exists|k: int|
                    is_first_missing(old(profile)@.disabled, string_views(to_enable@), k) && e@
                        == ToggleErrorView::NotPresent(#[trigger] string_views(to_enable@)[k])
            },
        },
        old(profile)@.wf() ==> final(profile)@.wf(),
{
    let ghost before = profile@;
    let ghost targets = string_views(to_enable@);
    match select_targets(&profile.disabled, &to_enable) {
        Err(e) => Err(e),
        Ok(indices) => {
            proof {
                lemma_positions_selected(before.disabled, targets, indices@);
                assert forall|k: int| 0 <= k < targets.len() implies has_match(
                    before.disabled,
                    #[trigger] targets[k],
                ) by {
                    assert(is_first_match(before.disabled, targets[k], indices@[k] as int));
                }
                assert forall|k: int| 0 <= k < indices@.len() implies indices@[k]
                    < profile.disabled@.len() by {
                    assert(is_first_match(before.disabled, targets[k], indices@[k] as int));
                }
                if before.wf() {
                    lemma_wf_symmetric(before.mods, before.disabled);
                    lemma_move_keeps_wf(
                        before.disabled,
                        before.mods,
                        selected(before.disabled, targets),
                    );
                    let swept = sweep(
                        before.disabled,
                        selected(before.disabled, targets),
                        before.disabled.len() as int,
                    );
                    lemma_wf_symmetric(swept.0, before.mods + swept.1);
                }
            }
            let moved = move_records(&mut profile.disabled, &mut profile.mods, &indices);
            Ok(moved)
        },
    }
}

/// The first of `indices` that is not a position of a list of `len` records.
fn first_out_of_range(indices: &Vec<usize>, len: usize) -> (r: Option<usize>)
    ensures
        match r {
            Some(k) => k < indices@.len() && indices@[k as int] >= len && forall|j: int|
                0 <= j < k ==> indices@[j] < len,
            None => forall|j: int| 0 <= j < indices@.len() ==> indices@[j] < len,
        },
{
    let mut k: usize = 0;
    while k < indices.len()
        invariant
            k <= indices.len(),
            forall|j: int| 0 <= j < k ==> indices@[j] < len,
        decreases indices.len() - k,
    {
        if indices[k] >= len {
            return Some(k);
        }
        k += 1;
    }
    None
}

/// Disables the active mods at the positions `indices`, which the user
/// picked from the list of active mods: they move to the end of the disabled
/// list. Gives the names of the mods moved.
///
/// Where one of `indices` is not a position of the active list nothing is
/// moved at all, and the error holds the first such position.
pub fn disable_selected(profile: &mut Profile, indices: &Vec<usize>) -> (r: Result<
    Vec<String>,
    ToggleError,
>)
    ensures
        match r {
            Ok(moved) => {
                &&& forall|k: int| 0 <= k < indices@.len() ==> indices@[k] < old(profile)@.mods.len()
                &&& final(profile)@ == old(profile)@.disable_at(positions(indices@))
                &&& string_views(moved@) == names(
                    sweep(
                        old(profile)@.mods,
                        positions(indices@),
                        old(profile)@.mods.len() as int,
                    ).1,
                )
            },
            Err(e) => {
                &&& *final(profile) == *old(profile)
                &&& exists|k: int|
                    0 <= k < indices@.len() && #[trigger] indices@[k] >= old(profile)@.mods.len()
                        && (forall|j: int| 0 <= j < k ==> indices@[j] < old(profile)@.mods.len())
                        && e@ == ToggleErrorView::OutOfRange(indices@[k] as int)
            },
        },
        old(profile)@.wf() ==> final(profile)@.wf(),
{
    let ghost before = profile@;
    match first_out_of_range(indices, profile.mods.len()) {
        Some(k) => Err(ToggleError::OutOfRange(indices[k])),
        None => {
            proof {
                if before.wf() {
                    lemma_move_keeps_wf(before.mods, before.disabled, positions(indices@));
                }
            }
            let moved = move_records(&mut profile.mods, &mut profile.disabled, indices);
            Ok(moved)
        },
    }
}

/// Enables the disabled mods at the positions `indices`, which the user
/// picked from the list of disabled mods: they move to the end of the active
/// list. Gives the names of the mods moved.
///
/// Where one of `indices` is not a position of the disabled list nothing is
/// moved at all, and the error holds the first such position.
pub fn enable_selected(profile: &mut Profile, indices: &Vec<usize>) -> (r: Result<
    Vec<String>,
    ToggleError,
>)
    ensures
        match r {
            Ok(moved) => {
                &&& forall|k: int|
                    0 <= k < indices@.len() ==> indices@[k] < old(profile)@.disabled.len()
                &&& final(profile)@ == old(profile)@.enable_at(positions(indices@))
                &&& string_views(moved@) == names(
                    sweep(
                        old(profile)@.disabled,
                        positions(indices@),
                        old(profile)@.disabled.len() as int,
                    ).1,
                )
            },
            Err(e) => {
                &&& *final(profile) == *old(profile)
                &&& exists|k: int|
                    0 <= k < indices@.len() && #[trigger] indices@[k] >= old(
                        profile,
                    )@.disabled.len() && (forall|j: int|
                        0 <= j < k ==> indices@[j] < old(profile)@.disabled.len()) && e@
                        == ToggleErrorView::OutOfRange(indices@[k] as int)
            },
        },
        old(profile)@.wf() ==> final(profile)@.wf(),
{
    let ghost before = profile@;
    match first_out_of_range(indices, profile.disabled.len()) {
        Some(k) => Err(ToggleError::OutOfRange(indices[k])),
        None => {
            proof {
                if before.wf() {
                    lemma_wf_symmetric(before.mods, before.disabled);
                    lemma_move_keeps_wf(before.disabled, before.mods, positions(indices@));
                    let swept = sweep(
                        before.disabled,
                        positions(indices@),
                        before.disabled.len() as int,
                    );
                    lemma_wf_symmetric(swept.0, before.mods + swept.1);
                }
            }
            let moved = move_records(&mut profile.disabled, &mut profile.mods, indices);
            Ok(moved)
        },
    }
}

/// The platform of a project and its id, as the list of mods shows them:
/// two letters for the platform, then the id in a column of eight
/// characters. A repository has no id to show.
pub open spec fn platform_tag(id: ModIdentifierView) -> Seq<char> {
    match id {
        ModIdentifierView::CurseForgeProject(n) => "CF "@ + padded(decimal(n), 8),
        ModIdentifierView::PinnedCurseForgeProject(n, _) => "CF "@ + padded(decimal(n), 8),
        ModIdentifierView::ModrinthProject(s) => "MR "@ + padded(s, 8),
        ModIdentifierView::PinnedModrinthProject(s, _) => "MR "@ + padded(s, 8),
        ModIdentifierView::GitHubRepository(_, _) => "GH "@ + padded("\u{2026}"@, 8),
        ModIdentifierView::PinnedGitHubRepository(_, _) => "GH "@ + padded("\u{2026}"@, 8),
    }
}

/// The name a mod is listed under: `owner/repo` for a repository, else the
/// name of the mod.
pub open spec fn listed_name(m: ModView) -> Seq<char> {
    match m.identifier {
        ModIdentifierView::GitHubRepository(_, _) => m.identifier.key(),
        ModIdentifierView::PinnedGitHubRepository(_, _) => m.identifier.key(),
        _ => m.name,
    }
}

/// The line that stands for a mod in the list the user picks from.
pub open spec fn label(m: ModView) -> Seq<char> {
    padded(platform_tag(m.identifier), 11) + "  "@ + listed_name(m)
}

/// The line that stands for the mod `m` in the list the user picks from.
pub fn mod_label(m: &Mod) -> (s: String)
    ensures
        s@ == label(m@),
{
    let tag = match &m.identifier {
        ModIdentifier::CurseForgeProject(n) => {
            let id = decimal_string(*n);
            let column = pad_right(id.as_str(), 8);
            joined("CF ", column.as_str())
        },
        ModIdentifier::PinnedCurseForgeProject(n, _) => {
            let id = decimal_string(*n);
            let column = pad_right(id.as_str(), 8);
            joined("CF ", column.as_str())
        },
        ModIdentifier::ModrinthProject(id) => {
            let column = pad_right(id.as_str(), 8);
            joined("MR ", column.as_str())
        },
        ModIdentifier::PinnedModrinthProject(id, _) => {
            let column = pad_right(id.as_str(), 8);
            joined("MR ", column.as_str())
        },
        ModIdentifier::GitHubRepository(_, _) => {
            let column = pad_right("\u{2026}", 8);
            joined("GH ", column.as_str())
        },
        ModIdentifier::PinnedGitHubRepository(_, _) => {
            let column = pad_right("\u{2026}", 8);
            joined("GH ", column.as_str())
        },
    };
    let mut line = pad_right(tag.as_str(), 11);
    line.append("  ");
    match &m.identifier {
        ModIdentifier::GitHubRepository(_, _) => {
            let name = m.identifier.key();
            line.append(name.as_str());
        },
        ModIdentifier::PinnedGitHubRepository(_, _) => {
            let name = m.identifier.key();
            line.append(name.as_str());
        },
        _ => {
            line.append(m.name.as_str());
        },
    }
    line
}

/// The lines that stand for `mods` in the list the user picks from, in
/// order.
pub fn mod_labels(mods: &Vec<Mod>) -> (lines: Vec<String>)
    ensures
        string_views(lines@) == mod_views(mods@).map_values(|m: ModView| label(m)),
{
    let mut lines: Vec<String> = Vec::new();
    let mut i: usize = 0;
    while i < mods.len()
        invariant
            i <= mods.len(),
            string_views(lines@) == mod_views(mods@).map_values(|m: ModView| label(m)).take(
                i as int,
            ),
        decreases mods.len() - i,
    {
        let ghost so_far = string_views(lines@);
        let line = mod_label(&mods[i]);
        lines.push(line);
        assert(string_views(lines@) =~= so_far.push(label(mods@[i as int]@)));
        i += 1;
    }
    lines
}

} // verus!
