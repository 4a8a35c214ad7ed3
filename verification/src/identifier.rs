//! Project identifiers and mod loaders.

use crate::text::{joined, decimal, decimal_string, str_eq};
use vstd::prelude::*;

verus! {

/// A mod loader a server can run.
#[derive(Clone, Copy, Debug, PartialEq, Eq, Structural)]
pub enum ModLoader {
    Quilt,
    Fabric,
    Forge,
    NeoForge,
    Velocity,
}

/// The reference to a project on one of the platforms, optionally pinned to
/// one release of it.
#[derive(Debug)]
pub enum ModIdentifier {
    CurseForgeProject(i32),
    ModrinthProject(String),
    GitHubRepository(String, String),
    PinnedCurseForgeProject(i32, i32),
    PinnedModrinthProject(String, String),
    PinnedGitHubRepository((String, String), i32),
}

/// What a [`ModIdentifier`] holds, as mathematical values. Two identifiers
/// name the same thing exactly when their views are equal.
pub enum ModIdentifierView {
    CurseForgeProject(int),
    ModrinthProject(Seq<char>),
    GitHubRepository(Seq<char>, Seq<char>),
    PinnedCurseForgeProject(int, int),
    PinnedModrinthProject(Seq<char>, Seq<char>),
    PinnedGitHubRepository((Seq<char>, Seq<char>), int),
}

impl ModIdentifierView {
    /// The string form of the project the identifier names: the project id,
    /// or `owner/repo` for a repository. A pin does not change it.
    pub open spec fn key(self) -> Seq<char> {
        match self {
            ModIdentifierView::CurseForgeProject(id) => decimal(id),
            ModIdentifierView::PinnedCurseForgeProject(id, _) => decimal(id),
            ModIdentifierView::ModrinthProject(id) => id,
            ModIdentifierView::PinnedModrinthProject(id, _) => id,
            ModIdentifierView::GitHubRepository(owner, repo) => owner + seq!['/'] + repo,
            ModIdentifierView::PinnedGitHubRepository((owner, repo), _) => owner + seq!['/'] + repo,
        }
    }
}

impl View for ModIdentifier {
    type V = ModIdentifierView;

    open spec fn view(&self) -> ModIdentifierView {
        match self {
            ModIdentifier::CurseForgeProject(id) => ModIdentifierView::CurseForgeProject(*id as int),
            ModIdentifier::ModrinthProject(id) => ModIdentifierView::ModrinthProject(id@),
            ModIdentifier::GitHubRepository(owner, repo) => ModIdentifierView::GitHubRepository(
                owner@,
                repo@,
            ),
            ModIdentifier::PinnedCurseForgeProject(id, pin) => ModIdentifierView::PinnedCurseForgeProject(
                *id as int,
                *pin as int,
            ),
            ModIdentifier::PinnedModrinthProject(id, pin) => ModIdentifierView::PinnedModrinthProject(
                id@,
                pin@,
            ),
            ModIdentifier::PinnedGitHubRepository((owner, repo), pin) => ModIdentifierView::PinnedGitHubRepository(
                (owner@, repo@),
                *pin as int,
            ),
        }
    }
}

impl Clone for ModIdentifier {
    fn clone(&self) -> (r: Self)
        ensures
            r == *self,
    {
        match self {
            ModIdentifier::CurseForgeProject(id) => ModIdentifier::CurseForgeProject(*id),
            ModIdentifier::ModrinthProject(id) => ModIdentifier::ModrinthProject(id.clone()),
            ModIdentifier::GitHubRepository(owner, repo) => ModIdentifier::GitHubRepository(
                owner.clone(),
                repo.clone(),
            ),
            ModIdentifier::PinnedCurseForgeProject(id, pin) => ModIdentifier::PinnedCurseForgeProject(
                *id,
                *pin,
            ),
            ModIdentifier::PinnedModrinthProject(id, pin) => ModIdentifier::PinnedModrinthProject(
                id.clone(),
                pin.clone(),
            ),
            ModIdentifier::PinnedGitHubRepository((owner, repo), pin) => ModIdentifier::PinnedGitHubRepository(
                (owner.clone(), repo.clone()),
                *pin,
            ),
        }
    }
}

impl PartialEq for ModIdentifier {
    fn eq(&self, other: &Self) -> (r: bool) {
        match (self, other) {
            (ModIdentifier::CurseForgeProject(a), ModIdentifier::CurseForgeProject(b)) => *a == *b,
            (ModIdentifier::ModrinthProject(a), ModIdentifier::ModrinthProject(b)) => str_eq(
                a.as_str(),
                b.as_str(),
            ),
            (ModIdentifier::GitHubRepository(a, b), ModIdentifier::GitHubRepository(c, d)) => str_eq(
                a.as_str(),
                c.as_str(),
            ) && str_eq(b.as_str(), d.as_str()),
            (
                ModIdentifier::PinnedCurseForgeProject(a, b),
                ModIdentifier::PinnedCurseForgeProject(c, d),
            ) => *a == *c && *b == *d,
            (
                ModIdentifier::PinnedModrinthProject(a, b),
                ModIdentifier::PinnedModrinthProject(c, d),
            ) => str_eq(a.as_str(), c.as_str()) && str_eq(b.as_str(), d.as_str()),
            (
                ModIdentifier::PinnedGitHubRepository((a, b), p),
                ModIdentifier::PinnedGitHubRepository((c, d), q),
            ) => str_eq(a.as_str(), c.as_str()) && str_eq(b.as_str(), d.as_str()) && *p == *q,
            _ => false,
        }
    }
}

impl vstd::std_specs::cmp::PartialEqSpecImpl for ModIdentifier {
    open spec fn obeys_eq_spec() -> bool {
        true
    }

    open spec fn eq_spec(&self, other: &Self) -> bool {
        self@ == other@
    }
}

impl Eq for ModIdentifier {

}

/// The string form of a repository: `owner/repo`.
fn repository_key(owner: &str, repo: &str) -> (s: String)
    ensures
        s@ == owner@ + seq!['/'] + repo@,
{
    let mut s = joined(owner, "/");
    s.append(repo);
    proof {
        reveal_strlit("/");
        assert("/"@ =~= seq!['/']);
    }
    s
}

impl ModIdentifier {
    /// The string form of the project: the project id, or `owner/repo` for a
    /// repository.
    pub fn key(&self) -> (s: String)
        ensures
            s@ == self@.key(),
    {
        match self {
            ModIdentifier::CurseForgeProject(id) => decimal_string(*id),
            ModIdentifier::PinnedCurseForgeProject(id, _) => decimal_string(*id),
            ModIdentifier::ModrinthProject(id) => id.clone(),
            ModIdentifier::PinnedModrinthProject(id, _) => id.clone(),
            ModIdentifier::GitHubRepository(owner, repo) => repository_key(
                owner.as_str(),
                repo.as_str(),
            ),
            ModIdentifier::PinnedGitHubRepository((owner, repo), _) => repository_key(
                owner.as_str(),
                repo.as_str(),
            ),
        }
    }
}

} // verus!
