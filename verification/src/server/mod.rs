//! Setting up the server program for a mod loader.

pub mod download;
pub mod installers;

use crate::identifier::ModLoader;
use crate::server::installers::{
    FabricInstaller, ForgeInstaller, InstallPlan, Installer, NeoForgeInstaller, QuiltInstaller,
    VelocityInstaller,
};
use vstd::prelude::*;

verus! {

/// How an installed server is started.
#[derive(Debug)]
pub struct ServerInstallation {
    /// The file to run.
    pub executable: String,
    /// The command line, in which `{}` stands for the executable.
    pub wrapper: String,
}

/// What is left to do for the server of `mod_loader` once the file of its
/// installer was downloaded under the name `downloaded`, as the installer of
/// that loader plans it.
pub fn get_server_jar(game_version: &str, mod_loader: ModLoader, downloaded: &str, windows: bool) -> (plan:
    InstallPlan)
    ensures
        plan@ == (match mod_loader {
            ModLoader::Fabric => FabricInstaller::plan(game_version@, downloaded@, windows),
            ModLoader::Forge => ForgeInstaller::plan(game_version@, downloaded@, windows),
            ModLoader::Quilt => QuiltInstaller::plan(game_version@, downloaded@, windows),
            ModLoader::NeoForge => NeoForgeInstaller::plan(game_version@, downloaded@, windows),
            ModLoader::Velocity => VelocityInstaller::plan(game_version@, downloaded@, windows),
        }),
{
    match mod_loader {
        ModLoader::Fabric => FabricInstaller::install(game_version, downloaded, windows),
        ModLoader::Forge => ForgeInstaller::install(game_version, downloaded, windows),
        ModLoader::Quilt => QuiltInstaller::install(game_version, downloaded, windows),
        ModLoader::NeoForge => NeoForgeInstaller::install(game_version, downloaded, windows),
        ModLoader::Velocity => VelocityInstaller::install(game_version, downloaded, windows),
    }
}

} // verus!
