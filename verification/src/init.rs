//! Setting up the configuration of a new server.

use crate::identifier::ModLoader;
use crate::disable::positions;
use crate::profile::string_views;
use vstd::prelude::*;

verus! {

/// The place of a mod loader among the loaders of a profile: the one with
/// the lowest rank comes first and decides which server is installed.
pub open spec fn rank(loader: ModLoader) -> int {
    match loader {
        ModLoader::NeoForge => 0,
        ModLoader::Forge => 1,
        ModLoader::Quilt => 2,
        ModLoader::Fabric => 3,
        ModLoader::Velocity => 4,
    }
}

/// How often `loader` occurs in `s`.
pub open spec fn count(s: Seq<ModLoader>, loader: ModLoader) -> nat
    decreases s.len(),
{
    if s.len() == 0 {
        0
    } else {
        count(s.drop_last(), loader) + if s.last() == loader {
            1nat
        } else {
            0nat
        }
    }
}

/// `n` times `loader`.
pub open spec fn copies(loader: ModLoader, n: nat) -> Seq<ModLoader> {
    Seq::new(n, |i: int| loader)
}

/// The loaders of `s` by rank: each as often as `s` holds it.
pub open spec fn by_rank(s: Seq<ModLoader>) -> Seq<ModLoader> {
    copies(ModLoader::NeoForge, count(s, ModLoader::NeoForge)) + copies(
        ModLoader::Forge,
        count(s, ModLoader::Forge),
    ) + copies(ModLoader::Quilt, count(s, ModLoader::Quilt)) + copies(
        ModLoader::Fabric,
        count(s, ModLoader::Fabric),
    ) + copies(ModLoader::Velocity, count(s, ModLoader::Velocity))
}

/// No loader occurs more often than the sequence is long.
pub proof fn lemma_count_bound(s: Seq<ModLoader>, loader: ModLoader)
    ensures
        count(s, loader) <= s.len(),
    decreases s.len(),
{
    if s.len() > 0 {
        lemma_count_bound(s.drop_last(), loader);
    }
}

/// The loaders by rank stand in the order of their ranks.
pub proof fn lemma_by_rank_sorted(s: Seq<ModLoader>, i: int, j: int)
    requires
        0 <= i <= j < by_rank(s).len(),
    ensures
        rank(by_rank(s)[i]) <= rank(by_rank(s)[j]),
{
}

/// Appends `n` times `loader` to `out`.
fn push_copies(out: &mut Vec<ModLoader>, loader: ModLoader, n: usize)
    ensures
        final(out)@ == old(out)@ + copies(loader, n as nat),
{
    let ghost before = out@;
    let mut i: usize = 0;
    assert(before + copies(loader, 0) =~= before);
    while i < n
        invariant
            i <= n,
            out@ == before + copies(loader, i as nat),
        decreases n - i,
    {
        out.push(loader);
        assert((before + copies(loader, i as nat)).push(loader) =~= before + copies(
            loader,
            (i + 1) as nat,
        ));
        i += 1;
    }
}

/// Sorts mod loaders by rank: NeoForge first, then Forge, Quilt, Fabric and
/// Velocity.
pub fn sort_mod_loaders(mod_loaders: &mut Vec<ModLoader>)
    ensures
        final(mod_loaders)@ == by_rank(old(mod_loaders)@),
{
    let ghost all = mod_loaders@;
    let mut neoforge: usize = 0;
    let mut forge: usize = 0;
    let mut quilt: usize = 0;
    let mut fabric: usize = 0;
    let mut velocity: usize = 0;
    let mut i: usize = 0;
    assert(all.take(0) =~= Seq::<ModLoader>::empty());
    while i < mod_loaders.len()
        invariant
            i <= mod_loaders.len(),
            all == mod_loaders@,
            neoforge == count(all.take(i as int), ModLoader::NeoForge),
            forge == count(all.take(i as int), ModLoader::Forge),
            quilt == count(all.take(i as int), ModLoader::Quilt),
            fabric == count(all.take(i as int), ModLoader::Fabric),
            velocity == count(all.take(i as int), ModLoader::Velocity),
        decreases mod_loaders.len() - i,
    {
        proof {
            assert(all.take(i as int + 1).drop_last() =~= all.take(i as int));
            assert(all.take(i as int + 1).last() == all[i as int]);
            lemma_count_bound(all.take(i as int), ModLoader::NeoForge);
            lemma_count_bound(all.take(i as int), ModLoader::Forge);
            lemma_count_bound(all.take(i as int), ModLoader::Quilt);
            lemma_count_bound(all.take(i as int), ModLoader::Fabric);
            lemma_count_bound(all.take(i as int), ModLoader::Velocity);
        }
        match mod_loaders[i] {
            ModLoader::NeoForge => {
                neoforge += 1;
            },
            ModLoader::Forge => {
                forge += 1;
            },
            ModLoader::Quilt => {
                quilt += 1;
            },
            ModLoader::Fabric => {
                fabric += 1;
            },
            ModLoader::Velocity => {
                velocity += 1;
            },
        }
        i += 1;
    }
    assert(all.take(i as int) =~= all);
    mod_loaders.clear();
    assert(mod_loaders@ + copies(ModLoader::NeoForge, neoforge as nat) =~= copies(
        ModLoader::NeoForge,
        neoforge as nat,
    ));
    push_copies(mod_loaders, ModLoader::NeoForge, neoforge);
    push_copies(mod_loaders, ModLoader::Forge, forge);
    push_copies(mod_loaders, ModLoader::Quilt, quilt);
    push_copies(mod_loaders, ModLoader::Fabric, fabric);
    push_copies(mod_loaders, ModLoader::Velocity, velocity);
}

/// How the configuration of a new server comes about.
#[derive(Debug)]
pub enum Setup {
    /// The user is to be asked for the game versions and the mod loaders.
    Ask,
    /// The game versions and the mod loaders are given, the loaders by rank.
    Use { game_versions: Vec<String>, mod_loaders: Vec<ModLoader> },
}

/// Why no configuration can be made.
#[derive(Debug, PartialEq, Eq)]
pub enum CreateError {
    /// Of the game versions and the mod loaders only one was given.
    Incomplete,
}

impl CreateError {
    /// The text that tells the user of the error.
    pub fn message(&self) -> (s: String)
        ensures
            s@ == "Provide both game versions and mod loaders to create a profile"@,
    {
        "Provide both game versions and mod loaders to create a profile".to_string()
    }
}

/// Decides how the configuration of a new server comes about: from the game
/// versions and mod loaders where both are given, by asking the user where
/// neither is. To give only one of them is an error.
pub fn create(game_versions: Option<Vec<String>>, mod_loaders: Option<Vec<ModLoader>>) -> (r: Result<
    Setup,
    CreateError,
>)
    ensures
        match (game_versions, mod_loaders) {
            (Some(versions), Some(loaders)) => r matches Ok(Setup::Use { game_versions, mod_loaders })
                && game_versions == versions && mod_loaders@ == by_rank(loaders@),
            (None, None) => r matches Ok(Setup::Ask),
            _ => r matches Err(CreateError::Incomplete),
        },
{
    match (game_versions, mod_loaders) {
        (Some(game_versions), Some(mod_loaders)) => {
            let mut mod_loaders = mod_loaders;
            sort_mod_loaders(&mut mod_loaders);
            Ok(Setup::Use { game_versions, mod_loaders })
        },
        (None, None) => Ok(Setup::Ask),
        _ => Err(CreateError::Incomplete),
    }
}

/// The kind of a release of the game.
#[derive(Clone, Copy, Debug, PartialEq, Eq, Structural)]
pub enum GameVersionType {
    Release,
    Snapshot,
    Beta,
    Alpha,
}

/// A version of the game.
#[derive(Debug)]
pub struct GameVersion {
    pub version: String,
    pub version_type: GameVersionType,
    /// The moment of the release, as a number that grows with time.
    pub date: i64,
    /// Whether the version counts as a major one.
    pub major: bool,
}

impl Clone for GameVersion {
    fn clone(&self) -> (r: Self)
        ensures
            r == *self,
    {
        GameVersion {
            version: self.version.clone(),
            version_type: self.version_type,
            date: self.date,
            major: self.major,
        }
    }
}

/// The place of a kind of release in the list of versions: releases come
/// first, alphas last.
pub open spec fn type_rank(t: GameVersionType) -> int {
    match t {
        GameVersionType::Release => 0,
        GameVersionType::Snapshot => 1,
        GameVersionType::Beta => 2,
        GameVersionType::Alpha => 3,
    }
}

/// `a` stands before `b` in the list of versions whatever their places were:
/// its kind comes first, or it is of the same kind and newer.
pub open spec fn comes_before(a: GameVersion, b: GameVersion) -> bool {
    type_rank(a.version_type) < type_rank(b.version_type) || (type_rank(a.version_type)
        == type_rank(b.version_type) && a.date > b.date)
}

/// `order` lists the positions of `versions` in the order of the sorted
/// list: every position once, so that a version stands before another if it
/// comes before it, or if neither comes before the other and it stood
/// before it.
pub open spec fn is_sorted_order(versions: Seq<GameVersion>, order: Seq<usize>) -> bool {
    &&& order.len() == versions.len()
    &&& is_partial_order(versions, order)
}

/// `order` lists some positions of `versions`, none twice, in the order of
/// the sorted list.
pub open spec fn is_partial_order(versions: Seq<GameVersion>, order: Seq<usize>) -> bool {
    &&& forall|i: int| 0 <= i < order.len() ==> #[trigger] order[i] < versions.len()
    &&& forall|i: int, j: int|
        0 <= i < j < order.len() ==> stands_before(versions, #[trigger] order[i], #[trigger] order[j])
}

/// The version at position `x` stands before the one at position `y` in the
/// sorted list.
pub open spec fn stands_before(versions: Seq<GameVersion>, x: usize, y: usize) -> bool {
    comes_before(versions[x as int], versions[y as int]) || (!comes_before(
        versions[y as int],
        versions[x as int],
    ) && x < y)
}

/// The place of a kind of release in the list of versions.
fn type_rank_of(t: GameVersionType) -> (r: u8)
    ensures
        r == type_rank(t),
{
    match t {
        GameVersionType::Release => 0,
        GameVersionType::Snapshot => 1,
        GameVersionType::Beta => 2,
        GameVersionType::Alpha => 3,
    }
}

/// Whether `a` comes before `b`.
pub fn is_before(a: &GameVersion, b: &GameVersion) -> (r: bool)
    ensures
        r == comes_before(*a, *b),
{
    let x = type_rank_of(a.version_type);
    let y = type_rank_of(b.version_type);
    x < y || (x == y && a.date > b.date)
}

/// The positions of `versions` in the order of the sorted list: by kind,
/// the newest first within a kind, and versions of one kind and one moment
/// in the order they had.
pub fn sort_order(versions: &Vec<GameVersion>) -> (order: Vec<usize>)
    ensures
        is_sorted_order(versions@, order@),
{
    let mut order: Vec<usize> = Vec::new();
    let mut k: usize = 0;
    while k < versions.len()
        invariant
            k <= versions.len(),
            order@.len() == k,
            is_partial_order(versions@, order@),
            forall|i: int| 0 <= i < order@.len() ==> #[trigger] order@[i] < k,
        decreases versions.len() - k,
    {
        let mut p: usize = order.len();
        while p > 0 && is_before(&versions[k], &versions[order[p - 1]])
            invariant
                p <= order@.len(),
                k < versions.len(),
                order@.len() == k,
                is_partial_order(versions@, order@),
                forall|i: int| 0 <= i < order@.len() ==> #[trigger] order@[i] < k,
                forall|q: int|
                    p <= q < order@.len() ==> comes_before(
                        versions@[k as int],
                        versions@[#[trigger] order@[q] as int],
                    ),
            decreases p,
        {
            p -= 1;
        }
        let ghost before = order@;
        order.insert(p, k);
        proof {
            let after = order@;
            assert forall|i: int, j: int| 0 <= i < j < after.len() implies stands_before(
                versions@,
                #[trigger] after[i],
                #[trigger] after[j],
            ) by {
                if j < p {
                    assert(after[i] == before[i] && after[j] == before[j]);
                } else if j == p {
                    assert(after[i] == before[i]);
                    assert(before[i] < k);
                    if p > 0 {
                        assert(!comes_before(versions@[k as int], versions@[before[p - 1] as int]));
                        if i < p - 1 {
                            assert(stands_before(versions@, before[i], before[p - 1]));
                        }
                    }
                } else if i == p {
                    assert(after[j] == before[j - 1]);
                } else if i < p {
                    assert(after[i] == before[i] && after[j] == before[j - 1]);
                } else {
                    assert(after[i] == before[i - 1] && after[j] == before[j - 1]);
                }
            }
            assert forall|i: int| 0 <= i < after.len() implies #[trigger] after[i] < k + 1 by {
                if i < p {
                    assert(after[i] == before[i]);
                } else if i > p {
                    assert(after[i] == before[i - 1]);
                }
            }
        }
        k += 1;
    }
    order
}

/// The versions at the positions `order`, in that order.
pub open spec fn arranged(versions: Seq<GameVersion>, order: Seq<usize>) -> Seq<GameVersion> {
    Seq::new(order.len(), |i: int| versions[order[i] as int])
}

/// The list of versions of the game as the user is shown it: by kind,
/// releases first, and the newest first within a kind.
pub fn fetch_minecraft_versions(versions: &Vec<GameVersion>) -> (sorted: Vec<GameVersion>)
    ensures
        exists|order: Seq<usize>|
            is_sorted_order(versions@, order) && sorted@ == #[trigger] arranged(versions@, order),
{
    let order = sort_order(versions);
    let mut sorted: Vec<GameVersion> = Vec::new();
    let mut i: usize = 0;
    while i < order.len()
        invariant
            i <= order.len(),
            is_sorted_order(versions@, order@),
            sorted@ == arranged(versions@, order@).take(i as int),
        decreases order.len() - i,
    {
        sorted.push(versions[order[i]].clone());
        assert(sorted@ =~= arranged(versions@, order@).take(i as int + 1));
        i += 1;
    }
    assert(sorted@ =~= arranged(versions@, order@));
    sorted
}

/// The names of the versions of `versions` at the positions `sel`, in the
/// order of the list.
pub open spec fn picked(versions: Seq<GameVersion>, sel: Set<int>) -> Seq<Seq<char>>
    decreases versions.len(),
{
    if versions.len() == 0 {
        Seq::empty()
    } else if sel.contains(versions.len() - 1) {
        picked(versions.drop_last(), sel).push(versions.last().version@)
    } else {
        picked(versions.drop_last(), sel)
    }
}

/// The names of the versions that the user picked from the list
/// `versions`: those at the positions `selected`, in the order of the list.
pub fn pick_minecraft_versions(versions: &Vec<GameVersion>, selected: &Vec<usize>) -> (names: Vec<
    String,
>)
    ensures
        string_views(names@) == picked(versions@, positions(selected@)),
{
    let ghost sel = positions(selected@);
    let mut names: Vec<String> = Vec::new();
    let mut i: usize = 0;
    assert(string_views(names@) =~= picked(versions@.take(0), sel));
    while i < versions.len()
        invariant
            i <= versions.len(),
            sel == positions(selected@),
            string_views(names@) == picked(versions@.take(i as int), sel),
        decreases versions.len() - i,
    {
        let ghost so_far = string_views(names@);
        assert(versions@.take(i as int + 1).drop_last() =~= versions@.take(i as int));
        assert(versions@.take(i as int + 1).last() == versions@[i as int]);
        let mut found = false;
        let mut k: usize = 0;
        while k < selected.len() && !found
            invariant
                k <= selected.len(),
                found ==> sel.contains(i as int),
                sel == positions(selected@),
                !found ==> forall|w: int| 0 <= w < k ==> #[trigger] selected@[w] != i,
            decreases selected.len() - k,
        {
            if selected[k] == i {
                found = true;
            }
            k += 1;
        }
        if found {
            names.push(versions[i].version.clone());
            assert(string_views(names@) =~= so_far.push(versions@[i as int].version@));
        }
        i += 1;
    }
    assert(versions@.take(i as int) =~= versions@);
    names
}

} // verus!
