//! Named changes to a configuration that set a server up for a loader.

use crate::config::{FeriumConfigView, FerriteConfig, FerriteConfigView};
use crate::identifier::{ModIdentifier, ModIdentifierView, ModLoader};
use crate::profile::{Mod, ModView};
use crate::text::str_eq;
use vstd::prelude::*;

verus! {

/// Why a script was not run.
#[derive(Debug, PartialEq, Eq)]
pub enum ScriptError {
    /// No script has the name given.
    InvalidScript,
}

impl ScriptError {
    /// The text that tells the user of the error.
    pub fn message(&self) -> (s: String)
        ensures
            s@ == "Invalid script"@,
    {
        "Invalid script".to_string()
    }
}

/// The configuration after the script `setup:quilt`: the Fabric API is
/// replaced by its Quilt counterpart, and Fabric is accepted as a loader.
pub open spec fn quilt_setup(config: FerriteConfigView) -> FerriteConfigView {
    FerriteConfigView {
        ferium: FeriumConfigView {
            overrides: config.ferium.overrides.insert(
                "P7dR8mSH"@,
                ModIdentifierView::ModrinthProject("qvIfYCYJ"@),
            ),
            mod_loaders: config.ferium.mod_loaders.push(ModLoader::Fabric),
            ..config.ferium
        },
        ..config
    }
}

/// The configuration after the script `setup:sinytra`: the Fabric API is
/// replaced by its Forge counterpart, the mod Connector Extras is added, and
/// Fabric is accepted as a loader.
pub open spec fn sinytra_setup(config: FerriteConfigView) -> FerriteConfigView {
    FerriteConfigView {
        ferium: FeriumConfigView {
            overrides: config.ferium.overrides.insert(
                "P7dR8mSH"@,
                ModIdentifierView::ModrinthProject("Aqlf1Shp"@),
            ),
            mods: config.ferium.mods.push(
                ModView {
                    name: "Connector Extras"@,
                    identifier: ModIdentifierView::ModrinthProject("FYpiwiBR"@),
                    slug: None,
                    pin: false,
                },
            ),
            mod_loaders: config.ferium.mod_loaders.push(ModLoader::Fabric),
            ..config.ferium
        },
        ..config
    }
}

/// Runs the script `script` on `config`. An unknown name is an error and
/// leaves the configuration as it is.
pub fn run(config: &mut FerriteConfig, script: &str) -> (r: Result<(), ScriptError>)
    ensures
        script@ == "setup:quilt"@ ==> r is Ok && final(config)@ == quilt_setup(old(config)@),
        script@ == "setup:sinytra"@ ==> r is Ok && final(config)@ == sinytra_setup(old(config)@),
        script@ != "setup:quilt"@ && script@ != "setup:sinytra"@ ==> r == Err::<(), ScriptError>(
            ScriptError::InvalidScript,
        ) && *final(config) == *old(config),
{
    proof {
        reveal_strlit("setup:quilt");
        reveal_strlit("setup:sinytra");
        assert("setup:quilt"@.len() == 11);
        assert("setup:sinytra"@.len() == 13);
    }
    if str_eq(script, "setup:quilt") {
        config.ferium.overrides.insert(
            "P7dR8mSH".to_string(),
            ModIdentifier::ModrinthProject("qvIfYCYJ".to_string()),
        );
        config.ferium.mod_loaders.push(ModLoader::Fabric);
        Ok(())
    } else if str_eq(script, "setup:sinytra") {
        let ghost mods = config@.ferium.mods;
        config.ferium.overrides.insert(
            "P7dR8mSH".to_string(),
            ModIdentifier::ModrinthProject("Aqlf1Shp".to_string()),
        );
        let extras = Mod::new(
            "Connector Extras",
            ModIdentifier::ModrinthProject("FYpiwiBR".to_string()),
            false,
        );
        config.ferium.mods.push(extras);
        assert(config@.ferium.mods =~= mods.push(extras@));
        config.ferium.mod_loaders.push(ModLoader::Fabric);
        Ok(())
    } else {
        Err(ScriptError::InvalidScript)
    }
}

} // verus!
