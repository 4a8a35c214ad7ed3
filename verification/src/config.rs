//! The configuration of one server, as it is kept between runs.

use crate::identifier::{ModIdentifierView, ModLoader};
use crate::overrides::OverrideMap;
use crate::profile::{mod_views, string_views, Mod, ModView, Profile, ProfileView};
use crate::text::{
    chars_of, joined, decimal, fill_braces, fill_braces_chars, split, split_chars, string_of,
};
use vstd::prelude::*;

verus! {

/// Where the keys of the platforms are kept.
#[derive(Clone, Copy, Debug, PartialEq, Eq, Structural)]
pub enum KeyStoreConfig {
    Pass,
    DotEnv,
}

/// How the server is started.
#[derive(Debug)]
pub struct ServerConfig {
    /// The command line, in which `{}` stands for the executable.
    pub wrapper: String,
    pub executable: String,
}

/// The mods of the server and what they must be compatible with.
#[derive(Debug)]
pub struct FeriumConfig {
    pub game_versions: Vec<String>,
    pub mod_loaders: Vec<ModLoader>,
    pub overrides: OverrideMap,
    pub mods: Vec<Mod>,
    pub disabled: Vec<Mod>,
}

/// What a [`FeriumConfig`] holds, as mathematical values.
pub struct FeriumConfigView {
    pub game_versions: Seq<Seq<char>>,
    pub mod_loaders: Seq<ModLoader>,
    pub overrides: Map<Seq<char>, ModIdentifierView>,
    pub mods: Seq<ModView>,
    pub disabled: Seq<ModView>,
}

impl View for FeriumConfig {
    type V = FeriumConfigView;

    open spec fn view(&self) -> FeriumConfigView {
        FeriumConfigView {
            game_versions: string_views(self.game_versions@),
            mod_loaders: self.mod_loaders@,
            overrides: self.overrides@,
            mods: mod_views(self.mods@),
            disabled: mod_views(self.disabled@),
        }
    }
}

/// The whole configuration.
#[derive(Debug)]
pub struct FerriteConfig {
    /// The version of the format the configuration is written in.
    pub version: i64,
    /// Whether the mod files are brought up to date after every change.
    pub autoupdate: bool,
    pub key_store: KeyStoreConfig,
    pub server: ServerConfig,
    pub ferium: FeriumConfig,
}

/// What a [`FerriteConfig`] holds, as mathematical values.
pub struct FerriteConfigView {
    pub version: int,
    pub autoupdate: bool,
    pub key_store: KeyStoreConfig,
    pub wrapper: Seq<char>,
    pub executable: Seq<char>,
    pub ferium: FeriumConfigView,
}

impl View for FerriteConfig {
    type V = FerriteConfigView;

    open spec fn view(&self) -> FerriteConfigView {
        FerriteConfigView {
            version: self.version as int,
            autoupdate: self.autoupdate,
            key_store: self.key_store,
            wrapper: self.server.wrapper@,
            executable: self.server.executable@,
            ferium: self.ferium@,
        }
    }
}

/// Why a configuration cannot be read.
#[derive(Debug, PartialEq, Eq)]
pub enum ConfigError {
    /// The configuration is written in a format of the given version, which
    /// is not known.
    InvalidVersion(i64),
}

impl ConfigError {
    /// The text that tells the user of the error.
    pub fn message(&self) -> (s: String)
        ensures
            match self {
                ConfigError::InvalidVersion(version) => s@ == "Invalid version: "@ + decimal(
                    *version as int,
                ),
            },
    {
        match self {
            ConfigError::InvalidVersion(version) => {
                let number = crate::text::decimal_i64(*version);
                joined("Invalid version: ", number.as_str())
            },
        }
    }
}

/// The command that starts a server: the wrapper with every `{}` replaced
/// by the executable, cut at every space. The first piece is the program,
/// the others are its arguments.
pub open spec fn start_line(wrapper: Seq<char>, executable: Seq<char>) -> Seq<Seq<char>> {
    split(fill_braces(wrapper, executable), ' ')
}

impl FerriteConfig {
    /// The configuration of a new server: format version 1, updated
    /// automatically, keys in the environment file, no mods and no
    /// overrides.
    pub fn new(
        game_versions: Vec<String>,
        mod_loaders: Vec<ModLoader>,
        wrapper: String,
        executable: String,
    ) -> (config: FerriteConfig)
        ensures
            config@ == (FerriteConfigView {
                version: 1,
                autoupdate: true,
                key_store: KeyStoreConfig::DotEnv,
                wrapper: wrapper@,
                executable: executable@,
                ferium: FeriumConfigView {
                    game_versions: string_views(game_versions@),
                    mod_loaders: mod_loaders@,
                    overrides: Map::empty(),
                    mods: Seq::empty(),
                    disabled: Seq::empty(),
                },
            }),
    {
        let config = FerriteConfig {
            version: 1,
            autoupdate: true,
            key_store: KeyStoreConfig::DotEnv,
            server: ServerConfig { wrapper, executable },
            ferium: FeriumConfig {
                mod_loaders,
                game_versions,
                overrides: OverrideMap::new(),
                mods: Vec::new(),
                disabled: Vec::new(),
            },
        };
        assert(config@.ferium.mods =~= Seq::empty());
        assert(config@.ferium.disabled =~= Seq::empty());
        config
    }

    /// The version of the format to read a configuration in: the version it
    /// states, or 1 where it states none. Only version 1 is known.
    pub fn check_version(stated: Option<i64>) -> (r: Result<i64, ConfigError>)
        ensures
            r == (match stated {
                None => Ok::<i64, ConfigError>(1),
                Some(version) => if version == 1 {
                    Ok::<i64, ConfigError>(1)
                } else {
                    Err::<i64, ConfigError>(ConfigError::InvalidVersion(version))
                },
            }),
    {
        match stated {
            None => Ok(1),
            Some(version) => if version == 1 {
                Ok(1)
            } else {
                Err(ConfigError::InvalidVersion(version))
            },
        }
    }

    /// Takes the active and the disabled mods over from `profile`.
    pub fn update(&mut self, profile: Profile)
        ensures
            final(self)@ == (FerriteConfigView {
                ferium: FeriumConfigView {
                    mods: profile@.mods,
                    disabled: profile@.disabled,
                    ..old(self)@.ferium
                },
                ..old(self)@
            }),
    {
        self.ferium.mods = profile.mods;
        self.ferium.disabled = profile.disabled;
    }

    /// The profile of the configuration, with `output_dir` as the directory
    /// of its mod files.
    pub fn profile(self, output_dir: String) -> (profile: Profile)
        ensures
            profile@ == (ProfileView {
                name: "ferrite"@,
                output_dir: output_dir@,
                game_versions: self@.ferium.game_versions,
                mod_loaders: self@.ferium.mod_loaders,
                mods: self@.ferium.mods,
                disabled: self@.ferium.disabled,
            }),
    {
        Profile::new_complete(
            "ferrite".to_string(),
            output_dir,
            self.ferium.game_versions,
            self.ferium.mod_loaders,
            self.ferium.mods,
            self.ferium.disabled,
        )
    }

    /// The command that starts the server: the program first, then its
    /// arguments.
    pub fn start_command(&self) -> (command: Vec<String>)
        ensures
            command@.len() > 0,
            string_views(command@) == start_line(self@.wrapper, self@.executable),
    {
        let wrapper = chars_of(self.server.wrapper.as_str());
        let executable = chars_of(self.server.executable.as_str());
        let line = fill_braces_chars(&wrapper, &executable);
        let pieces = split_chars(&line, ' ');
        let ghost all = pieces@.map_values(|p: Vec<char>| p@);
        let mut command: Vec<String> = Vec::new();
        let mut i: usize = 0;
        while i < pieces.len()
            invariant
                i <= pieces.len(),
                all == pieces@.map_values(|p: Vec<char>| p@),
                string_views(command@) == all.take(i as int),
            decreases pieces.len() - i,
        {
            let ghost so_far = string_views(command@);
            let piece = string_of(&pieces[i]);
            command.push(piece);
            assert(string_views(command@) =~= so_far.push(all[i as int]));
            i += 1;
        }
        assert(all.take(i as int) =~= all);
        command
    }
}

} // verus!
