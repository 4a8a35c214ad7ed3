//! The answers of the version services, as far as the installers read them.

use vstd::prelude::*;

verus! {

/// One entry of Fabric's list of loader versions for a game version.
#[derive(Debug)]
pub struct FabricLoaderEntry {
    pub loader: FabricLoaderEntryLoader,
}

#[derive(Debug)]
pub struct FabricLoaderEntryLoader {
    pub stable: bool,
    pub version: String,
}

/// NeoForge's list of released versions.
#[derive(Debug)]
pub struct NeoForgeLoaderMetadata {
    pub versioning: NeoForgeLoaderVersioning,
}

#[derive(Debug)]
pub struct NeoForgeLoaderVersioning {
    pub versions: NeoForgeVersions,
}

#[derive(Debug)]
pub struct NeoForgeVersions {
    pub version: Vec<String>,
}

/// Velocity's list of versions, the latest first.
#[derive(Debug)]
pub struct VelocityVersions {
    pub versions: Vec<VelocityVersion>,
}

#[derive(Debug)]
pub struct VelocityVersion {
    pub version: VelocityVersionInner,
}

#[derive(Debug)]
pub struct VelocityVersionInner {
    pub id: String,
}

/// One build of a Velocity version.
#[derive(Debug)]
pub struct VelocityVersionBuild {
    pub downloads: VelocityVersionDownloads,
}

#[derive(Debug)]
pub struct VelocityVersionDownloads {
    pub server_default: VelocityVersionDownload,
}

#[derive(Debug)]
pub struct VelocityVersionDownload {
    pub url: String,
}

} // verus!
