//! The installers of the mod loaders: where each finds its versions and its
//! files, and what it does with a downloaded file.

use crate::profile::string_views;
use crate::server::ServerInstallation;
use crate::structs::{FabricLoaderEntry, VelocityVersionBuild, VelocityVersions};
use crate::text::{chars_of, joined, is_prefix, slice_chars, starts_with};
use vstd::prelude::*;

verus! {

/// What an installer does once its file is downloaded.
#[derive(Debug)]
pub struct InstallPlan {
    /// The program to run and its arguments; empty where nothing is run.
    pub command: Vec<String>,
    /// The files to delete after the program has run.
    pub remove: Vec<String>,
    /// How the installed server is started.
    pub installation: ServerInstallation,
}

/// What an [`InstallPlan`] holds, as mathematical values.
pub struct InstallPlanView {
    pub command: Seq<Seq<char>>,
    pub remove: Seq<Seq<char>>,
    pub executable: Seq<char>,
    pub wrapper: Seq<char>,
}

impl View for InstallPlan {
    type V = InstallPlanView;

    open spec fn view(&self) -> InstallPlanView {
        InstallPlanView {
            command: string_views(self.command@),
            remove: string_views(self.remove@),
            executable: self.installation.executable@,
            wrapper: self.installation.wrapper@,
        }
    }
}

/// The installer of a mod loader.
pub trait Installer {
    /// What the installer does once its file is downloaded.
    spec fn plan(game_version: Seq<char>, downloaded: Seq<char>, windows: bool) -> InstallPlanView;

    /// What is left to do once the installer's file was downloaded under the
    /// name `downloaded`: the program to run, the files to delete
    /// afterwards, and how the server is then started. `windows` says
    /// whether the server runs on Windows.
    fn install(game_version: &str, downloaded: &str, windows: bool) -> (plan: InstallPlan)
        ensures
            plan@ == Self::plan(game_version@, downloaded@, windows),
    ;
}

/// The file that starts a server installed by Forge or NeoForge.
pub open spec fn run_script(windows: bool) -> Seq<char> {
    if windows {
        "./run.bat"@
    } else {
        "./run.sh"@
    }
}

/// The file that starts a server installed by Forge or NeoForge.
pub fn run_script_name(windows: bool) -> (s: String)
    ensures
        s@ == run_script(windows),
{
    if windows {
        "./run.bat".to_string()
    } else {
        "./run.sh".to_string()
    }
}

/// A vector of the two strings given.
fn pair(a: String, b: String) -> (v: Vec<String>)
    ensures
        string_views(v@) == seq![a@, b@],
{
    let mut v: Vec<String> = Vec::new();
    v.push(a);
    v.push(b);
    assert(string_views(v@) =~= seq![a@, b@]);
    v
}

pub struct FabricInstaller;

impl FabricInstaller {
    /// Where the loader versions for `game_version` are listed.
    pub open spec fn versions_address(game_version: Seq<char>) -> Seq<char> {
        "https://meta.fabricmc.net/v2/versions/loader/"@ + game_version
    }

    /// Where the loader versions for `game_version` are listed.
    pub fn versions_url(game_version: &str) -> (url: String)
        ensures
            url@ == Self::versions_address(game_version@),
    {
        joined("https://meta.fabricmc.net/v2/versions/loader/", game_version)
    }

    /// `i` is the position of the loader version to use: that of the first
    /// stable entry, or the first position where no entry is stable.
    pub open spec fn is_choice(entries: Seq<FabricLoaderEntry>, i: int) -> bool {
        &&& 0 <= i < entries.len()
        &&& forall|j: int| 0 <= j < i ==> !(#[trigger] entries[j]).loader.stable
        &&& entries[i].loader.stable || (i == 0 && forall|j: int|
            0 <= j < entries.len() ==> !(#[trigger] entries[j]).loader.stable)
    }

    /// The loader version to use: the first stable one of `entries`, or the
    /// first one where none is stable; none where there is no entry.
    pub fn pick_version(entries: &Vec<FabricLoaderEntry>) -> (r: Option<String>)
        ensures
            match r {
                Some(version) => exists|i: int|
                    Self::is_choice(entries@, i) && version@ == (#[trigger] entries@[i]).loader.version@,
                None => entries@.len() == 0,
            },
    {
        let mut i: usize = 0;
        while i < entries.len()
            invariant
                i <= entries.len(),
                forall|j: int| 0 <= j < i ==> !(#[trigger] entries@[j]).loader.stable,
            decreases entries.len() - i,
        {
            if entries[i].loader.stable {
                assert(Self::is_choice(entries@, i as int));
                return Some(entries[i].loader.version.clone());
            }
            i += 1;
        }
        if entries.len() > 0 {
            assert(Self::is_choice(entries@, 0));
            Some(entries[0].loader.version.clone())
        } else {
            None
        }
    }

    /// Where the server file for the two versions is downloaded from.
    pub open spec fn download_address(game_version: Seq<char>, fabric_version: Seq<char>) -> Seq<char> {
        "https://meta.fabricmc.net/v2/versions/loader/"@ + game_version + "/"@ + fabric_version
            + "/1.1.0/server/jar"@
    }

    /// Where the server file for the two versions is downloaded from.
    pub fn download_url(game_version: &str, fabric_version: &str) -> (url: String)
        ensures
            url@ == Self::download_address(game_version@, fabric_version@),
    {
        let mut url = joined("https://meta.fabricmc.net/v2/versions/loader/", game_version);
        url.append("/");
        url.append(fabric_version);
        url.append("/1.1.0/server/jar");
        url
    }
}

impl Installer for FabricInstaller {
    /// The downloaded file is the server: nothing is run, nothing deleted.
    open spec fn plan(game_version: Seq<char>, downloaded: Seq<char>, windows: bool) -> InstallPlanView {
        InstallPlanView {
            command: Seq::empty(),
            remove: Seq::empty(),
            executable: downloaded,
            wrapper: "java -Xmx2G -jar {} nogui"@,
        }
    }

    fn install(game_version: &str, downloaded: &str, windows: bool) -> (plan: InstallPlan) {
        let plan = InstallPlan {
            command: Vec::new(),
            remove: Vec::new(),
            installation: ServerInstallation {
                executable: downloaded.to_string(),
                wrapper: "java -Xmx2G -jar {} nogui".to_string(),
            },
        };
        assert(plan@.command =~= Seq::empty());
        assert(plan@.remove =~= Seq::empty());
        plan
    }
}

pub struct ForgeInstaller;

impl ForgeInstaller {
    /// Where the loader versions of all game versions are listed.
    pub fn versions_url() -> (url: String)
        ensures
            url@ == "https://files.minecraftforge.net/net/minecraftforge/forge/maven-metadata.json"@,
    {
        "https://files.minecraftforge.net/net/minecraftforge/forge/maven-metadata.json".to_string()
    }

    /// The loader version to use: the last of those listed for the game
    /// version; none where none is listed.
    pub fn pick_version(versions: &Vec<String>) -> (r: Option<String>)
        ensures
            match r {
                Some(version) => versions@.len() > 0 && version@ == versions@.last()@,
                None => versions@.len() == 0,
            },
    {
        if versions.len() > 0 {
            Some(versions[versions.len() - 1].clone())
        } else {
            None
        }
    }

    /// Where the installer of the loader version is downloaded from.
    pub open spec fn download_address(forge_version: Seq<char>) -> Seq<char> {
        "https://maven.minecraftforge.net/net/minecraftforge/forge/"@ + forge_version + "/forge-"@
            + forge_version + "-installer.jar"@
    }

    /// Where the installer of the loader version is downloaded from.
    pub fn download_url(forge_version: &str) -> (url: String)
        ensures
            url@ == Self::download_address(forge_version@),
    {
        let mut url = joined("https://maven.minecraftforge.net/net/minecraftforge/forge/", forge_version);
        url.append("/forge-");
        url.append(forge_version);
        url.append("-installer.jar");
        url
    }
}

/// What the installers of Forge and NeoForge do with their file: run it with
/// `--installServer`, then delete it and its log.
pub open spec fn forge_plan(downloaded: Seq<char>, windows: bool) -> InstallPlanView {
    InstallPlanView {
        command: seq!["java"@, "-jar"@, downloaded, "--installServer"@],
        remove: seq![downloaded, downloaded + ".log"@],
        executable: run_script(windows),
        wrapper: "{} nogui"@,
    }
}

/// What the installers of Forge and NeoForge do with their file.
fn forge_install(downloaded: &str, windows: bool) -> (plan: InstallPlan)
    ensures
        plan@ == forge_plan(downloaded@, windows),
{
    let mut command: Vec<String> = Vec::new();
    command.push("java".to_string());
    command.push("-jar".to_string());
    command.push(downloaded.to_string());
    command.push("--installServer".to_string());
    let remove = pair(downloaded.to_string(), joined(downloaded, ".log"));
    let plan = InstallPlan {
        command,
        remove,
        installation: ServerInstallation {
            executable: run_script_name(windows),
            wrapper: "{} nogui".to_string(),
        },
    };
    assert(plan@.command =~= seq!["java"@, "-jar"@, downloaded@, "--installServer"@]);
    plan
}

impl Installer for ForgeInstaller {
    open spec fn plan(game_version: Seq<char>, downloaded: Seq<char>, windows: bool) -> InstallPlanView {
        forge_plan(downloaded, windows)
    }

    fn install(game_version: &str, downloaded: &str, windows: bool) -> (plan: InstallPlan) {
        forge_install(downloaded, windows)
    }
}

pub struct QuiltInstaller;

impl QuiltInstaller {
    /// Where the installer is downloaded from.
    pub fn download_url() -> (url: String)
        ensures
            url@ == "https://quiltmc.org/api/v1/download-latest-installer/java-universal"@,
    {
        "https://quiltmc.org/api/v1/download-latest-installer/java-universal".to_string()
    }
}

impl Installer for QuiltInstaller {
    /// The installer is run for the game version, then deleted.
    open spec fn plan(game_version: Seq<char>, downloaded: Seq<char>, windows: bool) -> InstallPlanView {
        InstallPlanView {
            command: seq![
                "java"@,
                "-jar"@,
                downloaded,
                "install"@,
                "server"@,
                game_version,
                "--download-server"@,
                "--install-dir=./"@,
            ],
            remove: seq![downloaded],
            executable: "quilt-server-launch.jar"@,
            wrapper: "java -jar {} nogui"@,
        }
    }

    fn install(game_version: &str, downloaded: &str, windows: bool) -> (plan: InstallPlan) {
        let mut command: Vec<String> = Vec::new();
        command.push("java".to_string());
        command.push("-jar".to_string());
        command.push(downloaded.to_string());
        command.push("install".to_string());
        command.push("server".to_string());
        command.push(game_version.to_string());
        command.push("--download-server".to_string());
        command.push("--install-dir=./".to_string());
        let mut remove: Vec<String> = Vec::new();
        remove.push(downloaded.to_string());
        let plan = InstallPlan {
            command,
            remove,
            installation: ServerInstallation {
                executable: "quilt-server-launch.jar".to_string(),
                wrapper: "java -jar {} nogui".to_string(),
            },
        };
        assert(plan@.command =~= Self::plan(game_version@, downloaded@, windows).command);
        assert(plan@.remove =~= seq![downloaded@]);
        plan
    }
}

pub struct NeoForgeInstaller;

impl NeoForgeInstaller {
    /// Where the released versions are listed.
    pub fn versions_url() -> (url: String)
        ensures
            url@ == "https://maven.neoforged.net/releases/net/neoforged/neoforge/maven-metadata.xml"@,
    {
        "https://maven.neoforged.net/releases/net/neoforged/neoforge/maven-metadata.xml".to_string()
    }

    /// What the versions for `game_version` begin with: the game version
    /// without its leading `1.`.
    pub open spec fn line(game_version: Seq<char>) -> Seq<char> {
        game_version.subrange(2, game_version.len() as int)
    }

    /// `i` is the position of the loader version to use: the last one that
    /// begins with the line of the game version.
    pub open spec fn is_choice(versions: Seq<String>, game_version: Seq<char>, i: int) -> bool {
        &&& 0 <= i < versions.len()
        &&& is_prefix(Self::line(game_version), versions[i]@)
        &&& forall|j: int|
            i < j < versions.len() ==> !is_prefix(Self::line(game_version), (#[trigger] versions[j])@)
    }

    /// The loader version to use for `game_version`: the last of `versions`
    /// that begins with the game version without its leading `1.`; none
    /// where no version does.
    pub fn pick_version(versions: &Vec<String>, game_version: &str) -> (r: Option<String>)
        requires
            is_prefix("1."@, game_version@),
        ensures
            match r {
                Some(version) => exists|i: int|
                    Self::is_choice(versions@, game_version@, i) && version@ == (
                    #[trigger] versions@[i])@,
                None => forall|j: int|
                    0 <= j < versions@.len() ==> !is_prefix(
                        Self::line(game_version@),
                        (#[trigger] versions@[j])@,
                    ),
            },
    {
        proof {
            reveal_strlit("1.");
        }
        let chars = chars_of(game_version);
        let line = slice_chars(&chars, 2, chars.len());
        let mut i: usize = versions.len();
        while i > 0
            invariant
                i <= versions.len(),
                line@ == Self::line(game_version@),
                forall|j: int|
                    i <= j < versions@.len() ==> !is_prefix(line@, (#[trigger] versions@[j])@),
            decreases i,
        {
            i -= 1;
            let version = chars_of(versions[i].as_str());
            if starts_with(&version, &line) {
                assert(Self::is_choice(versions@, game_version@, i as int));
                return Some(versions[i].clone());
            }
        }
        None
    }

    /// Where the installer of the loader version is downloaded from.
    pub open spec fn download_address(neoforge_version: Seq<char>) -> Seq<char> {
        "https://maven.neoforged.net/releases/net/neoforged/neoforge/"@ + neoforge_version
            + "/neoforge-"@ + neoforge_version + "-installer.jar"@
    }

    /// Where the installer of the loader version is downloaded from.
    pub fn download_url(neoforge_version: &str) -> (url: String)
        ensures
            url@ == Self::download_address(neoforge_version@),
    {
        let mut url = joined(
            "https://maven.neoforged.net/releases/net/neoforged/neoforge/",
            neoforge_version,
        );
        url.append("/neoforge-");
        url.append(neoforge_version);
        url.append("-installer.jar");
        url
    }
}

impl Installer for NeoForgeInstaller {
    open spec fn plan(game_version: Seq<char>, downloaded: Seq<char>, windows: bool) -> InstallPlanView {
        forge_plan(downloaded, windows)
    }

    fn install(game_version: &str, downloaded: &str, windows: bool) -> (plan: InstallPlan) {
        forge_install(downloaded, windows)
    }
}

pub struct VelocityInstaller;

impl VelocityInstaller {
    /// The name under which the version services are asked, for the program
    /// version `version`.
    pub fn user_agent(version: &str) -> (agent: String)
        ensures
            agent@ == "ferrite/"@ + version@ + " (github.com/septechx/ferrite)"@,
    {
        let mut agent = joined("ferrite/", version);
        agent.append(" (github.com/septechx/ferrite)");
        agent
    }

    /// Where the versions of the proxy are listed.
    pub fn versions_url() -> (url: String)
        ensures
            url@ == "https://fill.papermc.io/v3/projects/velocity/versions"@,
    {
        "https://fill.papermc.io/v3/projects/velocity/versions".to_string()
    }

    /// Where the builds of a version of the proxy are listed.
    pub fn builds_url(velocity_version: &str) -> (url: String)
        ensures
            url@ == "https://fill.papermc.io/v3/projects/velocity/versions/"@ + velocity_version@
                + "/builds"@,
    {
        let mut url = joined("https://fill.papermc.io/v3/projects/velocity/versions/", velocity_version);
        url.append("/builds");
        url
    }

    /// Where the proxy is downloaded from: the address of the first of
    /// `builds`; none where there is no build.
    pub fn download_url(builds: &Vec<VelocityVersionBuild>) -> (r: Option<String>)
        ensures
            match r {
                Some(url) => builds@.len() > 0 && url@ == builds@[0].downloads.server_default.url@,
                None => builds@.len() == 0,
            },
    {
        if builds.len() > 0 {
            Some(builds[0].downloads.server_default.url.clone())
        } else {
            None
        }
    }
}

/// The latest version of the proxy: the first of `versions`; none where
/// there is no version.
pub fn fetch_velocity_proxy_version(versions: &VelocityVersions) -> (r: Option<String>)
    ensures
        match r {
            Some(id) => versions.versions@.len() > 0 && id@ == versions.versions@[0].version.id@,
            None => versions.versions@.len() == 0,
        },
{
    if versions.versions.len() > 0 {
        Some(versions.versions[0].version.id.clone())
    } else {
        None
    }
}

impl Installer for VelocityInstaller {
    /// The downloaded file is the proxy: nothing is run, nothing deleted.
    open spec fn plan(game_version: Seq<char>, downloaded: Seq<char>, windows: bool) -> InstallPlanView {
        InstallPlanView {
            command: Seq::empty(),
            remove: Seq::empty(),
            executable: downloaded,
            wrapper: "java -jar {}"@,
        }
    }

    fn install(game_version: &str, downloaded: &str, windows: bool) -> (plan: InstallPlan) {
        let plan = InstallPlan {
            command: Vec::new(),
            remove: Vec::new(),
            installation: ServerInstallation {
                executable: downloaded.to_string(),
                wrapper: "java -jar {}".to_string(),
            },
        };
        assert(plan@.command =~= Seq::empty());
        assert(plan@.remove =~= Seq::empty());
        plan
    }
}

} // verus!
