use ferrite::disable::{disable, disable_selected, enable, enable_selected, find_target, ToggleError};
use ferrite::identifier::{ModIdentifier, ModLoader};
use ferrite::profile::{Mod, Profile};

fn modrinth(id: &str) -> ModIdentifier {
    ModIdentifier::ModrinthProject(id.to_string())
}

fn named(name: &str, id: ModIdentifier, slug: Option<&str>) -> Mod {
    let mut m = Mod::new(name, id, false);
    m.slug = slug.map(|s| s.to_string());
    m
}

fn profile(mods: Vec<Mod>, disabled: Vec<Mod>) -> Profile {
    Profile::new_complete(
        "ferrite".to_string(),
        "mods".to_string(),
        vec!["1.21.1".to_string()],
        vec![ModLoader::Fabric],
        mods,
        disabled,
    )
}

fn words(list: &[&str]) -> Vec<String> {
    list.iter().map(|s| s.to_string()).collect()
}

#[test]
fn disable_then_enable_restores_the_profile() {
    let alpha = named("alpha", modrinth("AAAA"), Some("alpha-mod"));
    let mut p = profile(vec![alpha.clone()], vec![]);
    assert_eq!(disable(&mut p, words(&["alpha"])).unwrap(), words(&["alpha"]));
    assert!(p.mods.is_empty());
    assert_eq!(p.disabled, vec![alpha.clone()]);
    assert_eq!(enable(&mut p, words(&["alpha"])).unwrap(), words(&["alpha"]));
    assert_eq!(p.mods, vec![alpha]);
    assert!(p.disabled.is_empty());
}

#[test]
fn disable_with_an_unknown_name_changes_nothing() {
    let alpha = named("alpha", modrinth("AAAA"), None);
    let mut p = profile(vec![alpha.clone()], vec![]);
    match disable(&mut p, words(&["alpha", "doesnotexist"])) {
        Err(e @ ToggleError::NotPresent(_)) => {
            assert_eq!(
                e.message(),
                "A mod with ID or name doesnotexist is not present in this profile"
            );
        }
        other => panic!("unexpected result: {other:?}"),
    }
    assert_eq!(p.mods, vec![alpha]);
    assert!(p.disabled.is_empty());
}

#[test]
fn the_first_unknown_name_is_reported() {
    let mut p = profile(vec![named("alpha", modrinth("AAAA"), None)], vec![]);
    match disable(&mut p, words(&["x1", "alpha", "x2"])) {
        Err(ToggleError::NotPresent(word)) => assert_eq!(word, "x1"),
        other => panic!("unexpected result: {other:?}"),
    }
}

#[test]
fn mods_are_found_by_name_project_and_slug() {
    let mods = vec![
        named("Sodium", modrinth("AANobbMI"), Some("sodium")),
        named("JEI", ModIdentifier::CurseForgeProject(238222), Some("jei")),
        named(
            "Tweaks",
            ModIdentifier::GitHubRepository("Owner".to_string(), "Repo".to_string()),
            None,
        ),
        named("Pinned", ModIdentifier::PinnedModrinthProject("PPPP".to_string(), "v1".to_string()), None),
        named("Pinned CF", ModIdentifier::PinnedCurseForgeProject(42, 7), None),
    ];
    assert_eq!(find_target(&mods, "sodium"), Some(0));
    assert_eq!(find_target(&mods, "SODIUM"), Some(0));
    assert_eq!(find_target(&mods, "AANobbMI"), Some(0));
    // a Modrinth id is matched exactly
    assert_eq!(find_target(&mods, "aanobbmi"), None);
    assert_eq!(find_target(&mods, "238222"), Some(1));
    assert_eq!(find_target(&mods, "0238222"), None);
    assert_eq!(find_target(&mods, "Jei"), Some(1));
    assert_eq!(find_target(&mods, "owner/repo"), Some(2));
    assert_eq!(find_target(&mods, "PPPP"), Some(3));
    assert_eq!(find_target(&mods, "42"), Some(4));
    assert_eq!(find_target(&mods, "7"), None);
    assert_eq!(find_target(&mods, ""), None);
}

#[test]
fn the_first_match_wins() {
    let mods = vec![
        named("beta", modrinth("BBBB"), Some("alpha")),
        named("alpha", modrinth("AAAA"), None),
    ];
    assert_eq!(find_target(&mods, "alpha"), Some(0));
}

#[test]
fn bulk_disable_removes_from_the_highest_index_down() {
    let a = named("a", modrinth("A"), None);
    let b = named("b", modrinth("B"), None);
    let c = named("c", modrinth("C"), None);
    let d = named("d", modrinth("D"), None);
    let mut p = profile(vec![a.clone(), b.clone(), c.clone(), d.clone()], vec![]);
    let moved = disable(&mut p, words(&["a", "c"])).unwrap();
    assert_eq!(moved, words(&["c", "a"]));
    // c is replaced by the last mod, d; then a is replaced by the last, again d
    assert_eq!(p.mods, vec![d, b]);
    assert_eq!(p.disabled, vec![c, a]);
}

#[test]
fn a_mod_named_twice_moves_once() {
    let a = named("a", modrinth("A"), Some("first"));
    let b = named("b", modrinth("B"), None);
    let mut p = profile(vec![a.clone(), b.clone()], vec![]);
    let moved = disable(&mut p, words(&["a", "first", "A"])).unwrap();
    assert_eq!(moved, words(&["a"]));
    assert_eq!(p.mods, vec![b]);
    assert_eq!(p.disabled, vec![a]);
}

#[test]
fn no_words_move_nothing() {
    let a = named("a", modrinth("A"), None);
    let mut p = profile(vec![a.clone()], vec![]);
    assert!(disable(&mut p, vec![]).unwrap().is_empty());
    assert_eq!(p.mods, vec![a]);
}

#[test]
fn picked_positions_are_disabled_and_enabled() {
    let a = named("a", modrinth("A"), None);
    let b = named("b", modrinth("B"), None);
    let c = named("c", modrinth("C"), None);
    let mut p = profile(vec![a.clone(), b.clone(), c.clone()], vec![]);
    assert_eq!(disable_selected(&mut p, &vec![1, 1, 0]).unwrap(), words(&["b", "a"]));
    assert_eq!(p.mods, vec![c.clone()]);
    assert_eq!(p.disabled, vec![b.clone(), a.clone()]);
    assert_eq!(enable_selected(&mut p, &vec![0]).unwrap(), words(&["b"]));
    assert_eq!(p.mods, vec![c, b]);
    assert_eq!(p.disabled, vec![a]);
}

#[test]
fn a_position_out_of_range_changes_nothing() {
    let a = named("a", modrinth("A"), None);
    let mut p = profile(vec![a.clone()], vec![]);
    match disable_selected(&mut p, &vec![0, 3]) {
        Err(e @ ToggleError::OutOfRange(3)) => {
            assert_eq!(e.message(), "There is no mod at position 3");
        }
        other => panic!("unexpected result: {other:?}"),
    }
    assert_eq!(p.mods, vec![a]);
    match enable_selected(&mut p, &vec![0]) {
        Err(ToggleError::OutOfRange(0)) => {}
        other => panic!("unexpected result: {other:?}"),
    }
}

#[test]
fn enable_with_an_unknown_name_changes_nothing() {
    let a = named("a", modrinth("A"), None);
    let mut p = profile(vec![], vec![a.clone()]);
    match enable(&mut p, words(&["b"])) {
        Err(ToggleError::NotPresent(word)) => assert_eq!(word, "b"),
        other => panic!("unexpected result: {other:?}"),
    }
    assert_eq!(p.disabled, vec![a]);
}

#[test]
fn round_trip_keeps_the_other_mods() {
    let a = named("a", modrinth("A"), None);
    let b = named("b", modrinth("B"), None);
    let c = named("c", modrinth("C"), None);
    let mut p = profile(vec![a.clone(), b.clone(), c.clone()], vec![]);
    disable(&mut p, words(&["a"])).unwrap();
    enable(&mut p, words(&["a"])).unwrap();
    assert!(p.disabled.is_empty());
    assert_eq!(p.mods, vec![c, b, a]);
}

#[test]
fn prune_disabled_drops_what_is_active() {
    let a = named("a", modrinth("A"), None);
    let b = named("b", modrinth("B"), None);
    let a_old = named("a (old)", modrinth("A"), None);
    let mut p = profile(vec![a.clone()], vec![b.clone(), a_old]);
    assert!(p.is_active(&modrinth("A")));
    assert!(!p.is_active(&modrinth("B")));
    p.prune_disabled();
    assert_eq!(p.mods, vec![a]);
    assert_eq!(p.disabled, vec![b]);
}
