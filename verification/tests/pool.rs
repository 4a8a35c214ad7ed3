use ferrite::identifier::ModIdentifier;
use ferrite::overrides::OverrideMap;
use ferrite::pool::{Lookup, Pool, ResolveError};
use ferrite::profile::Mod;

fn modrinth(id: &str) -> ModIdentifier {
    ModIdentifier::ModrinthProject(id.to_string())
}

fn found(name: &str, dependencies: Vec<ModIdentifier>) -> Lookup {
    Lookup::Found {
        filename: format!("{name}.jar"),
        url: format!("https://example.org/{name}.jar"),
        output: format!("mods/{name}.jar"),
        dependencies,
    }
}

#[test]
fn empty_pool_is_done_at_once() {
    let mut pool = Pool::new(vec![], OverrideMap::new());
    assert!(pool.is_done());
    assert!(pool.next_dispatch().is_none());
    let (artifacts, failed) = pool.finish().unwrap();
    assert!(artifacts.is_empty());
    assert!(!failed);
}

#[test]
fn shared_dependency_is_dispatched_once() {
    let mods = vec![
        Mod::new("a", modrinth("aaaa"), false),
        Mod::new("b", modrinth("bbbb"), false),
    ];
    let mut pool = Pool::new(mods, OverrideMap::new());
    let a = pool.next_dispatch().unwrap();
    let b = pool.next_dispatch().unwrap();
    assert!(pool.next_dispatch().is_none());
    assert!(!pool.is_done());
    // the lookups come back in the other order
    assert!(pool.complete(&b.identifier, found("b", vec![modrinth("lib")])));
    assert!(pool.complete(&a.identifier, found("a", vec![modrinth("lib")])));
    let dep = pool.next_dispatch().unwrap();
    assert_eq!(dep.identifier, modrinth("lib"));
    assert_eq!(dep.name, "Dependency: lib");
    assert!(pool.next_dispatch().is_none());
    assert_eq!(pool.progress(), (2, 3));
    assert!(pool.complete(&dep.identifier, found("lib", vec![])));
    assert!(pool.is_done());
    let (artifacts, failed) = pool.finish().unwrap();
    assert!(!failed);
    let sources: Vec<ModIdentifier> = artifacts.iter().map(|a| a.source.clone()).collect();
    assert_eq!(sources, vec![modrinth("bbbb"), modrinth("aaaa"), modrinth("lib")]);
}

#[test]
fn rate_limit_fails_the_run_after_the_others_finish() {
    let mods = vec![
        Mod::new("a", modrinth("aaaa"), false),
        Mod::new("b", modrinth("bbbb"), false),
        Mod::new("c", modrinth("cccc"), false),
    ];
    let mut pool = Pool::new(mods, OverrideMap::new());
    let a = pool.next_dispatch().unwrap();
    let b = pool.next_dispatch().unwrap();
    assert!(pool.complete(&a.identifier, Lookup::RateLimited("slow down".to_string())));
    // nothing further is handed out, though c is still queued
    assert!(pool.next_dispatch().is_none());
    assert!(!pool.is_done());
    assert_eq!(pool.progress(), (1, 2));
    assert!(pool.complete(&b.identifier, found("b", vec![])));
    // a report for a mod that is not in flight is not taken
    assert!(!pool.complete(&b.identifier, found("b", vec![])));
    assert!(pool.is_done());
    match pool.finish() {
        Err(ResolveError::RateLimited(message)) => assert_eq!(message, "slow down"),
        other => panic!("unexpected result: {other:?}"),
    }
}

#[test]
fn there_is_no_result_while_lookups_are_under_way() {
    let mods = vec![
        Mod::new("a", modrinth("aaaa"), false),
        Mod::new("b", modrinth("bbbb"), false),
    ];
    let mut pool = Pool::new(mods, OverrideMap::new());
    let a = pool.next_dispatch().unwrap();
    let _b = pool.next_dispatch().unwrap();
    assert!(pool.complete(&a.identifier, Lookup::RateLimited("slow down".to_string())));
    // b has not come back: the refusal does not surface yet
    assert!(matches!(pool.finish(), Err(ResolveError::Unfinished)));

    let mut pool = Pool::new(vec![Mod::new("a", modrinth("aaaa"), false)], OverrideMap::new());
    assert!(matches!(pool.next_dispatch(), Some(_)));
    assert!(matches!(pool.finish(), Err(ResolveError::Unfinished)));

    let pool = Pool::new(vec![Mod::new("a", modrinth("aaaa"), false)], OverrideMap::new());
    assert!(matches!(pool.finish(), Err(ResolveError::Unfinished)));
}
