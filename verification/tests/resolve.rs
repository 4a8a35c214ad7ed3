use ferrite::identifier::{ModIdentifier, ModLoader};
use ferrite::overrides::OverrideMap;
use ferrite::pool::{Lookup, ResolveError, ResolvedArtifact};
use ferrite::profile::{Mod, Profile};
use ferrite::upgrade::{get_platform_downloadables, pad_len, IndexEntry};

fn modrinth(id: &str) -> ModIdentifier {
    ModIdentifier::ModrinthProject(id.to_string())
}

fn found(name: &str, dependencies: Vec<ModIdentifier>) -> Lookup {
    Lookup::Found {
        filename: format!("{name}.jar"),
        url: format!("https://example.org/{name}.jar"),
        output: format!("mods/{name}.jar"),
        dependencies,
    }
}

fn entry(id: ModIdentifier, outcome: Lookup) -> IndexEntry {
    IndexEntry { identifier: id, outcome }
}

fn profile(mods: Vec<Mod>) -> Profile {
    Profile::new_complete(
        "ferrite".to_string(),
        "mods".to_string(),
        vec!["1.21.1".to_string()],
        vec![ModLoader::Fabric],
        mods,
        vec![],
    )
}

fn sources(artifacts: &[ResolvedArtifact]) -> Vec<ModIdentifier> {
    artifacts.iter().map(|a| a.source.clone()).collect()
}

#[test]
fn diamond_dependency_is_resolved_once() {
    let p = profile(vec![
        Mod::new("a", modrinth("aaaa"), false),
        Mod::new("b", modrinth("bbbb"), false),
    ]);
    let index = vec![
        entry(modrinth("aaaa"), found("a", vec![modrinth("lib")])),
        entry(modrinth("bbbb"), found("b", vec![modrinth("lib")])),
        entry(modrinth("lib"), found("lib", vec![])),
    ];
    let (artifacts, failed) = get_platform_downloadables(&p, &OverrideMap::new(), &index).unwrap();
    assert!(!failed);
    assert_eq!(
        sources(&artifacts),
        vec![modrinth("aaaa"), modrinth("bbbb"), modrinth("lib")]
    );
    assert_eq!(artifacts[2].filename, "lib.jar");
    assert_eq!(artifacts[0].dependencies, vec![modrinth("lib")]);
}

#[test]
fn circular_dependencies_terminate() {
    let p = profile(vec![Mod::new("a", modrinth("aaaa"), false)]);
    let index = vec![
        entry(modrinth("aaaa"), found("a", vec![modrinth("bbbb")])),
        entry(modrinth("bbbb"), found("b", vec![modrinth("aaaa"), modrinth("bbbb")])),
    ];
    let (artifacts, failed) = get_platform_downloadables(&p, &OverrideMap::new(), &index).unwrap();
    assert!(!failed);
    assert_eq!(sources(&artifacts), vec![modrinth("aaaa"), modrinth("bbbb")]);
}

#[test]
fn override_replaces_the_dependency() {
    let p = profile(vec![Mod::new("a", modrinth("aaaa"), false)]);
    let mut overrides = OverrideMap::new();
    overrides.insert("P7dR8mSH".to_string(), modrinth("qvIfYCYJ"));
    let index = vec![
        entry(modrinth("aaaa"), found("a", vec![modrinth("P7dR8mSH")])),
        entry(modrinth("P7dR8mSH"), found("fabric-api", vec![])),
        entry(modrinth("qvIfYCYJ"), found("qsl", vec![])),
    ];
    let (artifacts, failed) = get_platform_downloadables(&p, &overrides, &index).unwrap();
    assert!(!failed);
    assert_eq!(sources(&artifacts), vec![modrinth("aaaa"), modrinth("qvIfYCYJ")]);
    assert_eq!(artifacts[1].filename, "qsl.jar");
}

#[test]
fn override_applies_to_numeric_and_repository_keys() {
    let p = profile(vec![Mod::new("a", modrinth("aaaa"), false)]);
    let mut overrides = OverrideMap::new();
    overrides.insert("306612".to_string(), modrinth("fromcf"));
    overrides.insert("owner/repo".to_string(), ModIdentifier::CurseForgeProject(7));
    let index = vec![
        entry(
            modrinth("aaaa"),
            found(
                "a",
                vec![
                    ModIdentifier::CurseForgeProject(306612),
                    ModIdentifier::GitHubRepository("owner".to_string(), "repo".to_string()),
                ],
            ),
        ),
        entry(modrinth("fromcf"), found("x", vec![])),
        entry(ModIdentifier::CurseForgeProject(7), found("y", vec![])),
    ];
    let (artifacts, failed) = get_platform_downloadables(&p, &overrides, &index).unwrap();
    assert!(!failed);
    assert_eq!(
        sources(&artifacts),
        vec![modrinth("aaaa"), modrinth("fromcf"), ModIdentifier::CurseForgeProject(7)]
    );
}

#[test]
fn rate_limit_fails_the_whole_run() {
    let p = profile(vec![
        Mod::new("a", modrinth("aaaa"), false),
        Mod::new("b", modrinth("bbbb"), false),
    ]);
    let index = vec![
        entry(modrinth("aaaa"), found("a", vec![])),
        entry(modrinth("bbbb"), Lookup::RateLimited("too many requests".to_string())),
    ];
    match get_platform_downloadables(&p, &OverrideMap::new(), &index) {
        Err(ResolveError::RateLimited(message)) => assert_eq!(message, "too many requests"),
        other => panic!("unexpected result: {other:?}"),
    }
}

#[test]
fn soft_failure_sets_the_flag_and_goes_on() {
    let p = profile(vec![
        Mod::new("a", modrinth("aaaa"), false),
        Mod::new("b", modrinth("bbbb"), false),
        Mod::new("c", modrinth("cccc"), false),
    ]);
    let index = vec![
        entry(modrinth("aaaa"), Lookup::Failed("no compatible file".to_string())),
        entry(modrinth("cccc"), found("c", vec![])),
    ];
    let (artifacts, failed) = get_platform_downloadables(&p, &OverrideMap::new(), &index).unwrap();
    assert!(failed);
    assert_eq!(sources(&artifacts), vec![modrinth("cccc")]);
}

#[test]
fn empty_profile_resolves_to_nothing() {
    let p = profile(vec![]);
    let (artifacts, failed) = get_platform_downloadables(&p, &OverrideMap::new(), &vec![]).unwrap();
    assert!(artifacts.is_empty());
    assert!(!failed);
}

#[test]
fn duplicate_active_mods_are_resolved_once() {
    let p = profile(vec![
        Mod::new("a", modrinth("aaaa"), false),
        Mod::new("a again", modrinth("aaaa"), false),
    ]);
    let index = vec![entry(modrinth("aaaa"), found("a", vec![]))];
    let (artifacts, _) = get_platform_downloadables(&p, &OverrideMap::new(), &index).unwrap();
    assert_eq!(sources(&artifacts), vec![modrinth("aaaa")]);
}

#[test]
fn pad_len_is_clamped() {
    assert_eq!(pad_len(&vec![]), 20);
    assert_eq!(pad_len(&vec![Mod::new("short", modrinth("a"), false)]), 20);
    let name25 = "x".repeat(25);
    assert_eq!(pad_len(&vec![Mod::new(&name25, modrinth("a"), false)]), 25);
    let name70 = "x".repeat(70);
    assert_eq!(
        pad_len(&vec![
            Mod::new(&name25, modrinth("a"), false),
            Mod::new(&name70, modrinth("b"), false)
        ]),
        50
    );
    // the length is counted in bytes
    let accented = "é".repeat(12);
    assert_eq!(pad_len(&vec![Mod::new(&accented, modrinth("a"), false)]), 24);
}
