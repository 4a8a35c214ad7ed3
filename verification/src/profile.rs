//! Mod records and the profile that owns them.

use crate::identifier::{ModIdentifier, ModIdentifierView, ModLoader};
use crate::text::str_eq;
use vstd::prelude::*;

verus! {

/// One mod of a profile.
#[derive(Debug)]
pub struct Mod {
    /// The name shown to the user.
    pub name: String,
    /// The project the mod comes from. This, not the name, is its identity.
    pub identifier: ModIdentifier,
    /// The short name of the project on its platform, once known.
    pub slug: Option<String>,
    /// Whether the mod is held to one specific release.
    pub pin: bool,
}

/// What a [`Mod`] holds, as mathematical values.
pub struct ModView {
    pub name: Seq<char>,
    pub identifier: ModIdentifierView,
    pub slug: Option<Seq<char>>,
    pub pin: bool,
}

/// The view of an optional string.
pub open spec fn opt_view(s: Option<String>) -> Option<Seq<char>> {
    match s {
        Some(s) => Some(s@),
        None => None,
    }
}

impl View for Mod {
    type V = ModView;

    open spec fn view(&self) -> ModView {
        ModView {
            name: self.name@,
            identifier: self.identifier@,
            slug: opt_view(self.slug),
            pin: self.pin,
        }
    }
}

/// The views of a sequence of mods, in order.
pub open spec fn mod_views(s: Seq<Mod>) -> Seq<ModView> {
    s.map_values(|m: Mod| m@)
}

/// The identifiers of a sequence of mods, in order.
pub open spec fn identifiers(s: Seq<ModView>) -> Seq<ModIdentifierView> {
    s.map_values(|m: ModView| m.identifier)
}

/// The views of a sequence of strings, in order.
pub open spec fn string_views(s: Seq<String>) -> Seq<Seq<char>> {
    s.map_values(|x: String| x@)
}

/// Whether two optional strings hold the same characters, or are both absent.
pub fn opt_str_eq(a: &Option<String>, b: &Option<String>) -> (r: bool)
    ensures
        r == (opt_view(*a) == opt_view(*b)),
{
    match (a, b) {
        (Some(x), Some(y)) => str_eq(x.as_str(), y.as_str()),
        (None, None) => true,
        _ => false,
    }
}

impl Clone for Mod {
    fn clone(&self) -> (r: Self)
        ensures
            r == *self,
    {
        Mod {
            name: self.name.clone(),
            identifier: self.identifier.clone(),
            slug: match &self.slug {
                Some(s) => Some(s.clone()),
                None => None,
            },
            pin: self.pin,
        }
    }
}

impl PartialEq for Mod {
    fn eq(&self, other: &Self) -> (r: bool) {
        str_eq(self.name.as_str(), other.name.as_str()) && self.identifier == other.identifier
            && opt_str_eq(&self.slug, &other.slug) && self.pin == other.pin
    }
}

impl vstd::std_specs::cmp::PartialEqSpecImpl for Mod {
    open spec fn obeys_eq_spec() -> bool {
        true
    }

    open spec fn eq_spec(&self, other: &Self) -> bool {
        self@ == other@
    }
}

impl Eq for Mod {

}

impl Mod {
    /// A record for the project `identifier` under the name `name`, with no
    /// slug yet.
    pub fn new(name: &str, identifier: ModIdentifier, pin: bool) -> (m: Mod)
        ensures
            m@ == (ModView { name: name@, identifier: identifier@, slug: None, pin }),
    {
        Mod { name: name.to_string(), identifier, slug: None, pin }
    }
}

/// The mods of one server, those in use and those set aside, with the
/// versions and loaders they must be compatible with.
#[derive(Debug)]
pub struct Profile {
    pub name: String,
    /// The directory the mod files are kept in.
    pub output_dir: String,
    /// The game versions a mod file must support.
    pub game_versions: Vec<String>,
    /// The mod loaders a mod file may be made for, the preferred one first.
    pub mod_loaders: Vec<ModLoader>,
    /// The active mods. Their order carries no meaning.
    pub mods: Vec<Mod>,
    /// The disabled mods. Their order carries no meaning.
    pub disabled: Vec<Mod>,
}

/// What a [`Profile`] holds, as mathematical values.
pub struct ProfileView {
    pub name: Seq<char>,
    pub output_dir: Seq<char>,
    pub game_versions: Seq<Seq<char>>,
    pub mod_loaders: Seq<ModLoader>,
    pub mods: Seq<ModView>,
    pub disabled: Seq<ModView>,
}

impl ProfileView {
    /// No project is named by two records of the profile, active or
    /// disabled. In particular no mod is both active and disabled.
    pub open spec fn wf(self) -> bool {
        identifiers(self.mods + self.disabled).no_duplicates()
    }
}

impl View for Profile {
    type V = ProfileView;

    open spec fn view(&self) -> ProfileView {
        ProfileView {
            name: self.name@,
            output_dir: self.output_dir@,
            game_versions: string_views(self.game_versions@),
            mod_loaders: self.mod_loaders@,
            mods: mod_views(self.mods@),
            disabled: mod_views(self.disabled@),
        }
    }
}

impl Profile {
    /// A profile with the given mods.
    pub fn new_complete(
        name: String,
        output_dir: String,
        game_versions: Vec<String>,
        mod_loaders: Vec<ModLoader>,
        mods: Vec<Mod>,
        disabled: Vec<Mod>,
    ) -> (p: Profile)
        ensures
            p.name == name,
            p.output_dir == output_dir,
            p.game_versions == game_versions,
            p.mod_loaders == mod_loaders,
            p.mods == mods,
            p.disabled == disabled,
    {
        Profile { name, output_dir, game_versions, mod_loaders, mods, disabled }
    }

    /// The preferred mod loader, if the profile names any.
    pub fn mod_loader(&self) -> (r: Option<ModLoader>)
        ensures
            r == if self.mod_loaders@.len() > 0 {
                Some(self.mod_loaders@[0])
            } else {
                None
            },
    {
        if self.mod_loaders.len() > 0 {
            Some(self.mod_loaders[0])
        } else {
            None
        }
    }
}

/// The mods of `disabled` whose project none of the mods `active` names,
/// in order.
pub open spec fn not_active(disabled: Seq<ModView>, active: Seq<ModView>) -> Seq<ModView>
    decreases disabled.len(),
{
    if disabled.len() == 0 {
        Seq::empty()
    } else if identifiers(active).contains(disabled.last().identifier) {
        not_active(disabled.drop_last(), active)
    } else {
        not_active(disabled.drop_last(), active).push(disabled.last())
    }
}

/// After the disabled mods that are active were dropped, no project is both
/// active and disabled.
pub proof fn lemma_not_active_disjoint(disabled: Seq<ModView>, active: Seq<ModView>, i: int)
    requires
        0 <= i < not_active(disabled, active).len(),
    ensures
        !identifiers(active).contains(not_active(disabled, active)[i].identifier),
        disabled.contains(not_active(disabled, active)[i]),
    decreases disabled.len(),
{
    if disabled.len() > 0 {
        let before = not_active(disabled.drop_last(), active);
        if i < before.len() {
            lemma_not_active_disjoint(disabled.drop_last(), active, i);
            let j = choose|j: int|
                0 <= j < disabled.drop_last().len() && disabled.drop_last()[j] == before[i];
            assert(disabled[j] == before[i]);
        } else {
            assert(disabled[disabled.len() - 1] == disabled.last());
        }
    }
}

impl Profile {
    /// Whether one of the active mods comes from the project `id`.
    pub fn is_active(&self, id: &ModIdentifier) -> (r: bool)
        ensures
            r == identifiers(self@.mods).contains(id@),
    {
        let mut i: usize = 0;
        while i < self.mods.len()
            invariant
                i <= self.mods.len(),
                forall|j: int| 0 <= j < i ==> #[trigger] identifiers(self@.mods)[j] != id@,
            decreases self.mods.len() - i,
        {
            if self.mods[i].identifier == *id {
                assert(identifiers(self@.mods)[i as int] == id@);
                return true;
            }
            i += 1;
        }
        false
    }

    /// Drops the disabled mods whose project is among the active mods, as
    /// after a mod that was disabled has been added anew.
    pub fn prune_disabled(&mut self)
        ensures
            final(self)@ == (ProfileView {
                disabled: not_active(old(self)@.disabled, old(self)@.mods),
                ..old(self)@
            }),
    {
        let ghost all = self@.disabled;
        let ghost active = self@.mods;
        let mut kept: Vec<Mod> = Vec::new();
        let mut i: usize = 0;
        assert(mod_views(kept@) =~= not_active(all.take(0), active));
        while i < self.disabled.len()
            invariant
                i <= self.disabled.len(),
                *self == *old(self),
                all == self@.disabled,
                active == self@.mods,
                mod_views(kept@) == not_active(all.take(i as int), active),
            decreases self.disabled.len() - i,
        {
            let ghost so_far = mod_views(kept@);
            assert(all.take(i as int + 1).drop_last() =~= all.take(i as int));
            assert(all.take(i as int + 1).last() == self.disabled@[i as int]@);
            if !self.is_active(&self.disabled[i].identifier) {
                let m = self.disabled[i].clone();
                kept.push(m);
                assert(mod_views(kept@) =~= so_far.push(m@));
            }
            i += 1;
        }
        assert(all.take(i as int) =~= all);
        self.disabled = kept;
    }
}

} // verus!
