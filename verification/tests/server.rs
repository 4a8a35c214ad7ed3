use ferrite::config::{ConfigError, FerriteConfig, KeyStoreConfig};
use ferrite::identifier::{ModIdentifier, ModLoader};
use ferrite::init::{create, sort_mod_loaders, CreateError, Setup};
use ferrite::profile::Mod;
use ferrite::scripts::{run, ScriptError};
use ferrite::server::download::{download_file, filename_of_header, server_file_name, DownloadError};
use ferrite::server::get_server_jar;
use ferrite::server::installers::{
    fetch_velocity_proxy_version, FabricInstaller, ForgeInstaller, Installer, NeoForgeInstaller,
    QuiltInstaller, VelocityInstaller,
};
use ferrite::structs::{
    FabricLoaderEntry, FabricLoaderEntryLoader, VelocityVersion, VelocityVersionBuild,
    VelocityVersionDownload, VelocityVersionDownloads, VelocityVersionInner, VelocityVersions,
};

fn words(list: &[&str]) -> Vec<String> {
    list.iter().map(|s| s.to_string()).collect()
}

#[test]
fn header_names_the_file() {
    assert_eq!(
        filename_of_header("attachment; filename=\"server.jar\""),
        Some("server.jar".to_string())
    );
    assert_eq!(filename_of_header("filename=plain.jar"), Some("plain.jar".to_string()));
    assert_eq!(
        filename_of_header("attachment;filename=a.jar;filename=b.jar"),
        Some("a.jar".to_string())
    );
    assert_eq!(filename_of_header("attachment;  filename=\"\"x\" "), Some("x".to_string()));
    assert_eq!(filename_of_header("attachment; filename= \"x\""), Some(" \"x".to_string()));
    assert_eq!(filename_of_header("attachment"), None);
    assert_eq!(filename_of_header(""), None);
    assert_eq!(filename_of_header("attachment; Filename=x"), None);
    assert_eq!(filename_of_header("attachment; filename"), None);
    assert_eq!(filename_of_header("filename="), Some("".to_string()));
}

#[test]
fn download_is_named_by_header_or_hash() {
    assert_eq!(
        download_file(Some("attachment; filename=\"fabric.jar\""), b"bytes"),
        Ok("fabric.jar".to_string())
    );
    assert_eq!(download_file(Some("inline"), b"bytes"), Err(DownloadError::NoFilename));
    assert_eq!(DownloadError::NoFilename.message(), "No filename in Content-Disposition");
    // BLAKE3 of the empty input
    assert_eq!(
        download_file(None, b""),
        Ok("server-af1349b9f5f9a1a6a0404dea36dcc9499bcb25c9adc112b7cc9a93cae41f3262.jar".to_string())
    );
    assert_ne!(download_file(None, b"a"), download_file(None, b"b"));
    assert_eq!(server_file_name("abc"), "server-abc.jar");
}

fn loader(version: &str, stable: bool) -> FabricLoaderEntry {
    FabricLoaderEntry { loader: FabricLoaderEntryLoader { stable, version: version.to_string() } }
}

#[test]
fn fabric_picks_the_first_stable_loader() {
    assert_eq!(
        FabricInstaller::pick_version(&vec![loader("0.17.0-beta", false), loader("0.16.9", true), loader("0.16.8", true)]),
        Some("0.16.9".to_string())
    );
    assert_eq!(
        FabricInstaller::pick_version(&vec![loader("0.17.0-beta", false), loader("0.17.0-alpha", false)]),
        Some("0.17.0-beta".to_string())
    );
    assert_eq!(FabricInstaller::pick_version(&vec![]), None);
    assert_eq!(
        FabricInstaller::versions_url("1.21.1"),
        "https://meta.fabricmc.net/v2/versions/loader/1.21.1"
    );
    assert_eq!(
        FabricInstaller::download_url("1.21.1", "0.16.9"),
        "https://meta.fabricmc.net/v2/versions/loader/1.21.1/0.16.9/1.1.0/server/jar"
    );
    let plan = FabricInstaller::install("1.21.1", "fabric-server.jar", false);
    assert!(plan.command.is_empty());
    assert!(plan.remove.is_empty());
    assert_eq!(plan.installation.executable, "fabric-server.jar");
    assert_eq!(plan.installation.wrapper, "java -Xmx2G -jar {} nogui");
}

#[test]
fn forge_runs_its_installer() {
    assert_eq!(ForgeInstaller::pick_version(&words(&["1.21.1-52.0.1", "1.21.1-52.0.2"])), Some("1.21.1-52.0.2".to_string()));
    assert_eq!(ForgeInstaller::pick_version(&vec![]), None);
    assert_eq!(
        ForgeInstaller::versions_url(),
        "https://files.minecraftforge.net/net/minecraftforge/forge/maven-metadata.json"
    );
    assert_eq!(
        ForgeInstaller::download_url("1.21.1-52.0.2"),
        "https://maven.minecraftforge.net/net/minecraftforge/forge/1.21.1-52.0.2/forge-1.21.1-52.0.2-installer.jar"
    );
    let plan = ForgeInstaller::install("1.21.1", "forge-installer.jar", false);
    assert_eq!(plan.command, words(&["java", "-jar", "forge-installer.jar", "--installServer"]));
    assert_eq!(plan.remove, words(&["forge-installer.jar", "forge-installer.jar.log"]));
    assert_eq!(plan.installation.executable, "./run.sh");
    assert_eq!(plan.installation.wrapper, "{} nogui");
    let plan = ForgeInstaller::install("1.21.1", "forge-installer.jar", true);
    assert_eq!(plan.installation.executable, "./run.bat");
}

#[test]
fn neoforge_picks_the_last_version_of_the_line() {
    let versions = words(&["20.4.237", "21.1.1", "21.1.200", "21.10.5", "21.4.1"]);
    assert_eq!(NeoForgeInstaller::pick_version(&versions, "1.21.1"), Some("21.10.5".to_string()));
    assert_eq!(NeoForgeInstaller::pick_version(&versions, "1.20.4"), Some("20.4.237".to_string()));
    assert_eq!(NeoForgeInstaller::pick_version(&versions, "1.19"), None);
    assert_eq!(NeoForgeInstaller::pick_version(&versions, "1."), Some("21.4.1".to_string()));
    assert_eq!(
        NeoForgeInstaller::download_url("21.1.200"),
        "https://maven.neoforged.net/releases/net/neoforged/neoforge/21.1.200/neoforge-21.1.200-installer.jar"
    );
    assert_eq!(
        NeoForgeInstaller::versions_url(),
        "https://maven.neoforged.net/releases/net/neoforged/neoforge/maven-metadata.xml"
    );
    let plan = NeoForgeInstaller::install("1.21.1", "neo.jar", false);
    assert_eq!(plan.command, words(&["java", "-jar", "neo.jar", "--installServer"]));
    assert_eq!(plan.remove, words(&["neo.jar", "neo.jar.log"]));
    assert_eq!(plan.installation.executable, "./run.sh");
    assert_eq!(plan.installation.wrapper, "{} nogui");
}

#[test]
fn quilt_runs_its_installer() {
    assert_eq!(
        QuiltInstaller::download_url(),
        "https://quiltmc.org/api/v1/download-latest-installer/java-universal"
    );
    let plan = QuiltInstaller::install("1.21.1", "quilt-installer.jar", true);
    assert_eq!(
        plan.command,
        words(&[
            "java",
            "-jar",
            "quilt-installer.jar",
            "install",
            "server",
            "1.21.1",
            "--download-server",
            "--install-dir=./"
        ])
    );
    assert_eq!(plan.remove, words(&["quilt-installer.jar"]));
    assert_eq!(plan.installation.executable, "quilt-server-launch.jar");
    assert_eq!(plan.installation.wrapper, "java -jar {} nogui");
}

fn build(url: &str) -> VelocityVersionBuild {
    VelocityVersionBuild {
        downloads: VelocityVersionDownloads {
            server_default: VelocityVersionDownload { url: url.to_string() },
        },
    }
}

#[test]
fn velocity_takes_the_first_version_and_build() {
    let versions = VelocityVersions {
        versions: vec![
            VelocityVersion { version: VelocityVersionInner { id: "3.4.0".to_string() } },
            VelocityVersion { version: VelocityVersionInner { id: "3.3.0".to_string() } },
        ],
    };
    assert_eq!(fetch_velocity_proxy_version(&versions), Some("3.4.0".to_string()));
    assert_eq!(fetch_velocity_proxy_version(&VelocityVersions { versions: vec![] }), None);
    assert_eq!(
        VelocityInstaller::download_url(&vec![build("https://a/1.jar"), build("https://a/2.jar")]),
        Some("https://a/1.jar".to_string())
    );
    assert_eq!(VelocityInstaller::download_url(&vec![]), None);
    assert_eq!(VelocityInstaller::user_agent("0.3.1"), "ferrite/0.3.1 (github.com/septechx/ferrite)");
    assert_eq!(VelocityInstaller::versions_url(), "https://fill.papermc.io/v3/projects/velocity/versions");
    assert_eq!(
        VelocityInstaller::builds_url("3.4.0"),
        "https://fill.papermc.io/v3/projects/velocity/versions/3.4.0/builds"
    );
    let plan = VelocityInstaller::install("", "velocity.jar", false);
    assert!(plan.command.is_empty());
    assert!(plan.remove.is_empty());
    assert_eq!(plan.installation.executable, "velocity.jar");
    assert_eq!(plan.installation.wrapper, "java -jar {}");
}

#[test]
fn the_loader_decides_the_installer() {
    assert_eq!(get_server_jar("1.21.1", ModLoader::Fabric, "f.jar", false).installation.executable, "f.jar");
    assert_eq!(get_server_jar("1.21.1", ModLoader::Forge, "f.jar", false).installation.executable, "./run.sh");
    assert_eq!(get_server_jar("1.21.1", ModLoader::NeoForge, "f.jar", true).installation.executable, "./run.bat");
    assert_eq!(get_server_jar("1.21.1", ModLoader::Quilt, "f.jar", false).command.len(), 8);
    assert_eq!(get_server_jar("1.21.1", ModLoader::Velocity, "f.jar", false).installation.wrapper, "java -jar {}");
}

#[test]
fn loaders_are_sorted_by_rank() {
    let mut loaders = vec![
        ModLoader::Velocity,
        ModLoader::Fabric,
        ModLoader::NeoForge,
        ModLoader::Quilt,
        ModLoader::Fabric,
        ModLoader::Forge,
    ];
    sort_mod_loaders(&mut loaders);
    assert_eq!(
        loaders,
        vec![
            ModLoader::NeoForge,
            ModLoader::Forge,
            ModLoader::Quilt,
            ModLoader::Fabric,
            ModLoader::Fabric,
            ModLoader::Velocity
        ]
    );
    let mut none: Vec<ModLoader> = vec![];
    sort_mod_loaders(&mut none);
    assert!(none.is_empty());
}

#[test]
fn create_needs_both_or_neither() {
    match create(Some(words(&["1.21.1"])), Some(vec![ModLoader::Fabric, ModLoader::Forge])) {
        Ok(Setup::Use { game_versions, mod_loaders }) => {
            assert_eq!(game_versions, words(&["1.21.1"]));
            assert_eq!(mod_loaders, vec![ModLoader::Forge, ModLoader::Fabric]);
        }
        other => panic!("unexpected result: {other:?}"),
    }
    assert!(matches!(create(None, None), Ok(Setup::Ask)));
    assert!(matches!(create(Some(vec![]), None), Err(CreateError::Incomplete)));
    assert!(matches!(create(None, Some(vec![])), Err(CreateError::Incomplete)));
    assert_eq!(
        CreateError::Incomplete.message(),
        "Provide both game versions and mod loaders to create a profile"
    );
}

fn config() -> FerriteConfig {
    FerriteConfig::new(
        words(&["1.21.1"]),
        vec![ModLoader::Quilt],
        "java -jar {} nogui".to_string(),
        "server.jar".to_string(),
    )
}

#[test]
fn new_configuration_has_the_defaults() {
    let c = config();
    assert_eq!(c.version, 1);
    assert!(c.autoupdate);
    assert_eq!(c.key_store, KeyStoreConfig::DotEnv);
    assert_eq!(c.server.wrapper, "java -jar {} nogui");
    assert_eq!(c.server.executable, "server.jar");
    assert_eq!(c.ferium.game_versions, words(&["1.21.1"]));
    assert_eq!(c.ferium.mod_loaders, vec![ModLoader::Quilt]);
    assert!(c.ferium.mods.is_empty());
    assert!(c.ferium.disabled.is_empty());
    assert!(c.ferium.overrides.entries().is_empty());
    assert_eq!(c.start_command(), words(&["java", "-jar", "server.jar", "nogui"]));
}

#[test]
fn only_version_one_is_read() {
    assert_eq!(FerriteConfig::check_version(None), Ok(1));
    assert_eq!(FerriteConfig::check_version(Some(1)), Ok(1));
    assert_eq!(FerriteConfig::check_version(Some(2)), Err(ConfigError::InvalidVersion(2)));
    assert_eq!(ConfigError::InvalidVersion(-3).message(), "Invalid version: -3");
}

#[test]
fn configuration_and_profile_exchange_mods() {
    let mut c = config();
    let a = Mod::new("a", ModIdentifier::CurseForgeProject(1), false);
    let b = Mod::new("b", ModIdentifier::CurseForgeProject(2), true);
    let mut p = config().profile("/srv/mods".to_string());
    assert_eq!(p.name, "ferrite");
    assert_eq!(p.output_dir, "/srv/mods");
    assert_eq!(p.game_versions, words(&["1.21.1"]));
    assert_eq!(p.mod_loader(), Some(ModLoader::Quilt));
    p.mods.push(a.clone());
    p.disabled.push(b.clone());
    c.update(p);
    assert_eq!(c.ferium.mods, vec![a]);
    assert_eq!(c.ferium.disabled, vec![b]);
    assert_eq!(c.ferium.mod_loaders, vec![ModLoader::Quilt]);
}

#[test]
fn scripts_change_the_configuration() {
    let mut c = config();
    run(&mut c, "setup:quilt").unwrap();
    assert_eq!(
        c.ferium.overrides.get("P7dR8mSH"),
        Some(&ModIdentifier::ModrinthProject("qvIfYCYJ".to_string()))
    );
    assert_eq!(c.ferium.mod_loaders, vec![ModLoader::Quilt, ModLoader::Fabric]);
    assert!(c.ferium.mods.is_empty());

    let mut c = config();
    run(&mut c, "setup:sinytra").unwrap();
    assert_eq!(
        c.ferium.overrides.get("P7dR8mSH"),
        Some(&ModIdentifier::ModrinthProject("Aqlf1Shp".to_string()))
    );
    assert_eq!(
        c.ferium.mods,
        vec![Mod::new("Connector Extras", ModIdentifier::ModrinthProject("FYpiwiBR".to_string()), false)]
    );
    assert_eq!(c.ferium.mod_loaders, vec![ModLoader::Quilt, ModLoader::Fabric]);

    let mut c = config();
    assert_eq!(run(&mut c, "setup:forge"), Err(ScriptError::InvalidScript));
    assert_eq!(ScriptError::InvalidScript.message(), "Invalid script");
    assert_eq!(c.ferium.mod_loaders, vec![ModLoader::Quilt]);
    assert!(c.ferium.overrides.entries().is_empty());
}
