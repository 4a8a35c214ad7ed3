use ferrite::disable::{mod_label, mod_labels};
use ferrite::identifier::ModIdentifier;
use ferrite::init::{
    fetch_minecraft_versions, is_before, pick_minecraft_versions, sort_order, GameVersion,
    GameVersionType,
};
use ferrite::profile::Mod;
use ferrite::text::pad_right;

fn version(name: &str, version_type: GameVersionType, date: i64) -> GameVersion {
    GameVersion { version: name.to_string(), version_type, date, major: false }
}

fn names(versions: &[GameVersion]) -> Vec<String> {
    versions.iter().map(|v| v.version.clone()).collect()
}

fn sample() -> Vec<GameVersion> {
    vec![
        version("a1.0", GameVersionType::Alpha, 10),
        version("1.20", GameVersionType::Release, 300),
        version("24w10a", GameVersionType::Snapshot, 350),
        version("1.21", GameVersionType::Release, 400),
        version("b1.8", GameVersionType::Beta, 50),
        version("1.21-twin", GameVersionType::Release, 400),
        version("23w01a", GameVersionType::Snapshot, 250),
    ]
}

#[test]
fn versions_are_sorted_by_kind_then_newest_first() {
    let versions = sample();
    assert_eq!(sort_order(&versions), vec![3, 5, 1, 2, 6, 4, 0]);
    let sorted = fetch_minecraft_versions(&versions);
    assert_eq!(
        names(&sorted),
        vec!["1.21", "1.21-twin", "1.20", "24w10a", "23w01a", "b1.8", "a1.0"]
    );
    assert!(fetch_minecraft_versions(&vec![]).is_empty());
}

#[test]
fn sorting_agrees_with_the_standard_stable_sort() {
    let versions = sample();
    let mut expected: Vec<usize> = (0..versions.len()).collect();
    expected.sort_by(|&a, &b| {
        let rank = |t: GameVersionType| match t {
            GameVersionType::Release => 0,
            GameVersionType::Snapshot => 1,
            GameVersionType::Beta => 2,
            GameVersionType::Alpha => 3,
        };
        rank(versions[a].version_type)
            .cmp(&rank(versions[b].version_type))
            .then(versions[b].date.cmp(&versions[a].date))
    });
    assert_eq!(sort_order(&versions), expected);
}

#[test]
fn a_version_comes_before_by_kind_or_date() {
    let release = version("1.21", GameVersionType::Release, 1);
    let newer = version("1.22", GameVersionType::Release, 2);
    let alpha = version("a", GameVersionType::Alpha, 100);
    assert!(is_before(&release, &alpha));
    assert!(!is_before(&alpha, &release));
    assert!(is_before(&newer, &release));
    assert!(!is_before(&release, &newer));
    assert!(!is_before(&release, &release));
}

#[test]
fn picked_versions_keep_the_order_of_the_list() {
    let versions = sample();
    assert_eq!(
        pick_minecraft_versions(&versions, &vec![3, 1, 3, 99]),
        vec!["1.20".to_string(), "1.21".to_string()]
    );
    assert!(pick_minecraft_versions(&versions, &vec![]).is_empty());
}

#[test]
fn padding_fills_up_with_spaces() {
    assert_eq!(pad_right("ab", 5), "ab   ");
    assert_eq!(pad_right("abcdef", 5), "abcdef");
    assert_eq!(pad_right("", 0), "");
    // the width counts characters, not bytes
    assert_eq!(pad_right("é", 3), "é  ");
}

#[test]
fn mods_are_labelled_for_the_list() {
    let sodium = Mod::new("Sodium", ModIdentifier::ModrinthProject("AANobbMI".to_string()), false);
    let jei = Mod::new("JEI", ModIdentifier::PinnedCurseForgeProject(238222, 1), false);
    let tweaks = Mod::new(
        "Tweaks",
        ModIdentifier::GitHubRepository("owner".to_string(), "repo".to_string()),
        false,
    );
    let long = Mod::new("Long", ModIdentifier::ModrinthProject("0123456789".to_string()), false);
    assert_eq!(mod_label(&sodium), format!("{:11}  {}", format!("MR {:8}", "AANobbMI"), "Sodium"));
    assert_eq!(mod_label(&sodium), "MR AANobbMI  Sodium");
    assert_eq!(mod_label(&jei), "CF 238222    JEI");
    assert_eq!(mod_label(&tweaks), "GH \u{2026}         owner/repo");
    assert_eq!(mod_label(&long), "MR 0123456789  Long");
    assert_eq!(
        mod_labels(&vec![sodium, jei]),
        vec!["MR AANobbMI  Sodium".to_string(), "CF 238222    JEI".to_string()]
    );
}
