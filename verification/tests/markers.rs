use ferrite::identifier::{ModIdentifier, ModLoader};
use ferrite::markers::{scan_file, scan_markers, DirEntry, Rename};
use ferrite::pool::ResolvedArtifact;
use ferrite::profile::{Mod, Profile};
use ferrite::upgrade::{finish_upgrade, jar_files, upgrade};

fn slugged(slug: &str) -> Mod {
    let mut m = Mod::new(slug, ModIdentifier::ModrinthProject(slug.to_string()), false);
    m.slug = Some(slug.to_string());
    m
}

fn owned(name: &str, slug: &str) -> DirEntry {
    DirEntry { name: name.to_string(), is_file: true, slug: Some(slug.to_string()) }
}

fn file(name: &str) -> DirEntry {
    DirEntry::named(name.to_string(), true)
}

fn dir(name: &str) -> DirEntry {
    DirEntry::named(name.to_string(), false)
}

fn pairs(renames: &[Rename]) -> Vec<(String, String)> {
    renames.iter().map(|r| (r.from.clone(), r.to.clone())).collect()
}

fn pair(from: &str, to: &str) -> (String, String) {
    (from.to_string(), to.to_string())
}

/// The directory after the renames were made: every file keeps its mod.
fn renamed(entries: &[DirEntry], renames: &[Rename]) -> Vec<DirEntry> {
    entries
        .iter()
        .map(|e| {
            let name = renames
                .iter()
                .find(|r| e.is_file && r.from == e.name)
                .map(|r| r.to.clone())
                .unwrap_or(e.name.clone());
            DirEntry { name, is_file: e.is_file, slug: e.slug.clone() }
        })
        .collect()
}

#[test]
fn the_file_of_a_disabled_mod_is_marked_once() {
    let disabled = vec![slugged("sodium")];
    let entries = vec![owned("sodium-fabric-0.5.8.jar", "sodium")];
    let first = scan_markers(&entries, &disabled);
    assert_eq!(
        pairs(&first),
        vec![pair("sodium-fabric-0.5.8.jar", "sodium-fabric-0.5.8.jar.disabled")]
    );
    let after = renamed(&entries, &first);
    assert_eq!(after[0].name, "sodium-fabric-0.5.8.jar.disabled");
    assert!(scan_markers(&after, &disabled).is_empty());
}

#[test]
fn disabled_files_get_the_marker() {
    let disabled = vec![slugged("sodium")];
    assert_eq!(
        scan_file(&owned("sodium-fabric-0.5.8.jar", "sodium"), &disabled),
        Some("sodium-fabric-0.5.8.jar.disabled".to_string())
    );
    assert_eq!(scan_file(&owned("lithium-0.1.jar", "lithium"), &disabled), None);
    assert_eq!(scan_file(&owned("sodium-fabric-0.5.8.jar.disabled", "sodium"), &disabled), None);
    assert_eq!(
        scan_file(&owned("lithium-0.1.jar.disabled", "lithium"), &disabled),
        Some("lithium-0.1.jar".to_string())
    );
    // a file of no known mod is no file of a disabled mod
    let unknown = DirEntry { name: "x.jar.disabled".to_string(), is_file: true, slug: None };
    assert_eq!(scan_file(&unknown, &disabled), Some("x.jar".to_string()));
    let unknown = DirEntry { name: "x.jar".to_string(), is_file: true, slug: None };
    assert_eq!(scan_file(&unknown, &disabled), None);
}

#[test]
fn a_file_name_states_a_slug() {
    assert_eq!(file("sodium.jar").slug, Some("sodium".to_string()));
    assert_eq!(file("Sodium.JAR").slug, Some("Sodium".to_string()));
    assert_eq!(file("sodium.jar.disabled").slug, Some("sodium".to_string()));
    assert_eq!(file("a.b.jar").slug, Some("a.b".to_string()));
    assert_eq!(file(".jar").slug, None);
    assert_eq!(file("notes.txt").slug, None);
    assert_eq!(file("sodium.jar.disabled.disabled").slug, None);
    assert_eq!(file(".disabled").slug, None);
    assert!(file("sodium.jar").is_file);
    assert!(!dir("sodium.jar").is_file);
    assert_eq!(dir("sodium.jar").name, "sodium.jar");
}

#[test]
fn only_jar_files_are_installed_mods() {
    let disabled = vec![slugged("notes"), slugged("a"), slugged("x")];
    assert_eq!(scan_file(&owned("notes.txt", "notes"), &disabled), None);
    assert_eq!(scan_file(&owned(".jar", "a"), &disabled), None);
    assert_eq!(scan_file(&owned("A.JAR", "a"), &disabled), Some("A.JAR.disabled".to_string()));
    assert_eq!(scan_file(&owned("notes.txt.disabled", "gone"), &disabled), None);
    assert_eq!(scan_file(&owned(".jar.disabled", "gone"), &disabled), None);
    assert_eq!(scan_file(&owned(".disabled", "gone"), &disabled), None);
    assert_eq!(scan_file(&owned("a.Jar.disabled", "gone"), &disabled), Some("a.Jar".to_string()));
    // a marker on a marked file is not a marker on an installed mod
    assert_eq!(scan_file(&owned("x.jar.disabled.disabled", "gone"), &disabled), None);
    assert_eq!(scan_file(&owned("x.jar.disabled", "x"), &disabled), None);
}

#[test]
fn a_mod_without_slug_marks_nothing() {
    let disabled = vec![Mod::new("sodium", ModIdentifier::ModrinthProject("x".to_string()), false)];
    assert_eq!(scan_file(&file("sodium.jar"), &disabled), None);
}

#[test]
fn scan_lists_the_renames_in_order() {
    let disabled = vec![slugged("b"), slugged("d")];
    let entries = vec![
        file("a.jar"),
        file("b.jar"),
        file("c.jar.disabled"),
        file("d.jar.disabled"),
        dir("b.jar"),
        dir("e.jar.disabled"),
        file("readme.md"),
    ];
    let renames = scan_markers(&entries, &disabled);
    assert_eq!(
        pairs(&renames),
        vec![pair("b.jar", "b.jar.disabled"), pair("c.jar.disabled", "c.jar")]
    );
}

#[test]
fn a_second_scan_renames_nothing() {
    let disabled = vec![slugged("b"), slugged("d")];
    let entries = vec![
        file("a.jar"),
        owned("b-1.0.jar", "b"),
        owned("c-2.jar.disabled", "c"),
        file("d.jar.disabled"),
        dir("b.jar"),
    ];
    let renames = scan_markers(&entries, &disabled);
    let after = renamed(&entries, &renames);
    assert_eq!(after[1].name, "b-1.0.jar.disabled");
    assert_eq!(after[2].name, "c-2.jar");
    assert!(scan_markers(&after, &disabled).is_empty());
}

#[test]
fn the_marker_goes_when_the_mod_is_enabled_again() {
    let alpha = slugged("alpha");
    let entry = owned("alpha-3.1.jar", "alpha");
    let to = scan_file(&entry, &vec![alpha]).unwrap();
    assert_eq!(to, "alpha-3.1.jar.disabled");
    let marked = DirEntry { name: to, is_file: true, slug: entry.slug.clone() };
    assert_eq!(scan_file(&marked, &vec![]), Some("alpha-3.1.jar".to_string()));
}

fn profile(loaders: Vec<ModLoader>, disabled: Vec<Mod>) -> Profile {
    Profile::new_complete(
        "ferrite".to_string(),
        "mods".to_string(),
        vec!["1.21.1".to_string()],
        loaders,
        vec![],
        disabled,
    )
}

#[test]
fn upgrade_plans_installs_and_renames() {
    let user = vec![file("mine.jar"), file("notes.txt"), dir("dir.jar"), file("OTHER.JAR")];
    let output = vec![owned("sodium-fabric-0.5.8.jar", "sodium"), file("old.jar.disabled")];
    let p = profile(vec![ModLoader::Fabric], vec![slugged("sodium")]);
    let plan = upgrade(&p, &user, &output);
    assert_eq!(plan.to_install, vec!["mine.jar".to_string(), "OTHER.JAR".to_string()]);
    assert_eq!(
        pairs(&plan.renames),
        vec![
            pair("sodium-fabric-0.5.8.jar", "sodium-fabric-0.5.8.jar.disabled"),
            pair("old.jar.disabled", "old.jar")
        ]
    );
    assert_eq!(jar_files(&user), vec!["mine.jar".to_string(), "OTHER.JAR".to_string()]);
}

#[test]
fn quilt_installs_no_user_files() {
    let user = vec![file("mine.jar")];
    let p = profile(vec![ModLoader::Quilt, ModLoader::Fabric], vec![]);
    assert!(upgrade(&p, &user, &vec![]).to_install.is_empty());
    let p = profile(vec![ModLoader::Fabric, ModLoader::Quilt], vec![]);
    assert_eq!(upgrade(&p, &user, &vec![]).to_install.len(), 1);
    let p = profile(vec![], vec![]);
    assert_eq!(upgrade(&p, &user, &vec![]).to_install.len(), 1);
}

#[test]
fn downloads_are_placed_in_the_output_directory() {
    let artifact = ResolvedArtifact {
        source: ModIdentifier::CurseForgeProject(1),
        filename: "a.jar".to_string(),
        url: "https://example.org/a.jar".to_string(),
        output: "mods/sub/a.jar".to_string(),
        dependencies: vec![ModIdentifier::CurseForgeProject(2)],
    };
    assert!(finish_upgrade(&vec![], &vec![]).is_none());
    let placed = finish_upgrade(&vec![artifact], &vec![]).unwrap();
    assert_eq!(placed.len(), 1);
    assert_eq!(placed[0].output, "a.jar");
    assert_eq!(placed[0].filename, "a.jar");
    assert_eq!(placed[0].url, "https://example.org/a.jar");
    assert_eq!(placed[0].source, ModIdentifier::CurseForgeProject(1));
    assert_eq!(placed[0].dependencies, vec![ModIdentifier::CurseForgeProject(2)]);
    let only_install = finish_upgrade(&vec![], &vec!["mine.jar".to_string()]).unwrap();
    assert!(only_install.is_empty());
}
