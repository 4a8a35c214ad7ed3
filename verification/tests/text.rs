use ferrite::identifier::ModIdentifier;
use ferrite::overrides::{add_override, parse_target, OverrideError, OverrideMap};
use ferrite::text::{
    chars_of, joined, decimal_i64, decimal_string, decimal_usize, eq_ignore_ascii_case,
    fill_braces_chars, parse_digits, split_chars, str_eq, string_of, trim_chars,
};

fn chars(s: &str) -> Vec<char> {
    s.chars().collect()
}

#[test]
fn strings_and_characters_convert() {
    assert_eq!(chars_of("héllo"), chars("héllo"));
    assert_eq!(string_of(&chars("héllo")), "héllo");
    assert_eq!(joined("ab", "cd"), "abcd");
    assert!(str_eq("abc", "abc"));
    assert!(!str_eq("abc", "abd"));
    assert!(!str_eq("abc", "ab"));
}

#[test]
fn case_is_ignored_for_ascii_letters_only() {
    assert!(eq_ignore_ascii_case("Sodium", "sODIUM"));
    assert!(eq_ignore_ascii_case("", ""));
    assert!(!eq_ignore_ascii_case("sodium", "sodium2"));
    assert!(!eq_ignore_ascii_case("É", "é"));
    assert!(!eq_ignore_ascii_case("@", "`"));
    assert!(!eq_ignore_ascii_case("[", "{"));
    assert!(eq_ignore_ascii_case("az", "AZ"));
}

#[test]
fn numbers_are_written_in_decimal() {
    assert_eq!(decimal_string(0), "0");
    assert_eq!(decimal_string(7), "7");
    assert_eq!(decimal_string(10), "10");
    assert_eq!(decimal_string(238222), "238222");
    assert_eq!(decimal_string(-45), "-45");
    assert_eq!(decimal_string(i32::MAX), i32::MAX.to_string());
    assert_eq!(decimal_string(i32::MIN), i32::MIN.to_string());
    assert_eq!(decimal_usize(1234), "1234");
    assert_eq!(decimal_i64(i64::MIN), i64::MIN.to_string());
    assert_eq!(decimal_i64(2), "2");
}

#[test]
fn digits_are_parsed() {
    assert_eq!(parse_digits(&chars("0")), Some(0));
    assert_eq!(parse_digits(&chars("0042")), Some(42));
    assert_eq!(parse_digits(&chars("2147483647")), Some(i32::MAX));
    assert_eq!(parse_digits(&chars("2147483648")), None);
    assert_eq!(parse_digits(&chars("99999999999999999999999")), None);
    assert_eq!(parse_digits(&chars("")), None);
    assert_eq!(parse_digits(&chars("12a")), None);
    assert_eq!(parse_digits(&chars("-1")), None);
}

#[test]
fn trimming_takes_white_space_or_quotes() {
    assert_eq!(trim_chars(&chars("  a b \t\n"), false), chars("a b"));
    assert_eq!(trim_chars(&chars("\u{a0}\u{3000}x\u{2003}"), false), chars("x"));
    assert_eq!(trim_chars(&chars("   "), false), chars(""));
    assert_eq!(trim_chars(&chars("\"\"name\"\""), true), chars("name"));
    assert_eq!(trim_chars(&chars("\"\"\""), true), chars(""));
    assert_eq!(trim_chars(&chars(" \"x\" "), true), chars(" \"x\" "));
}

#[test]
fn splitting_keeps_empty_pieces() {
    assert_eq!(split_chars(&chars("a b  c"), ' '), vec![chars("a"), chars("b"), chars(""), chars("c")]);
    assert_eq!(split_chars(&chars(""), ' '), vec![chars("")]);
    assert_eq!(split_chars(&chars(" "), ' '), vec![chars(""), chars("")]);
}

#[test]
fn braces_are_filled() {
    assert_eq!(fill_braces_chars(&chars("java -jar {} nogui"), &chars("server.jar")), chars("java -jar server.jar nogui"));
    assert_eq!(fill_braces_chars(&chars("{}{}"), &chars("ab")), chars("abab"));
    assert_eq!(fill_braces_chars(&chars("{ } {{}}"), &chars("x")), chars("{ } {x}"));
    assert_eq!(fill_braces_chars(&chars("{"), &chars("x")), chars("{"));
}

#[test]
fn override_targets_are_parsed() {
    assert_eq!(
        parse_target("owner/repo/x").unwrap(),
        ModIdentifier::GitHubRepository("owner".to_string(), "repo/x".to_string())
    );
    assert_eq!(parse_target("306612").unwrap(), ModIdentifier::CurseForgeProject(306612));
    assert_eq!(
        parse_target("qvIfYCYJ").unwrap(),
        ModIdentifier::ModrinthProject("qvIfYCYJ".to_string())
    );
    match parse_target("") {
        Err(OverrideError::InvalidNumber(word)) => assert_eq!(word, ""),
        other => panic!("unexpected result: {other:?}"),
    }
    match parse_target("99999999999") {
        Err(e @ OverrideError::InvalidNumber(_)) => {
            assert_eq!(e.message(), "Invalid project number: 99999999999")
        }
        other => panic!("unexpected result: {other:?}"),
    }
}

#[test]
fn overrides_are_added_and_replaced() {
    let mut overrides = OverrideMap::new();
    assert!(overrides.get("P7dR8mSH").is_none());
    add_override(&mut overrides, &vec!["P7dR8mSH".to_string(), "qvIfYCYJ".to_string()]).unwrap();
    assert_eq!(
        overrides.get("P7dR8mSH"),
        Some(&ModIdentifier::ModrinthProject("qvIfYCYJ".to_string()))
    );
    add_override(&mut overrides, &vec!["P7dR8mSH".to_string(), "12".to_string()]).unwrap();
    assert_eq!(overrides.get("P7dR8mSH"), Some(&ModIdentifier::CurseForgeProject(12)));
    assert_eq!(overrides.entries().len(), 1);
    match add_override(&mut overrides, &vec!["a".to_string()]) {
        Err(e @ OverrideError::InvalidAmount) => assert_eq!(e.message(), "Invalid amount of arguments"),
        other => panic!("unexpected result: {other:?}"),
    }
    assert!(add_override(&mut overrides, &vec!["a".to_string(), "".to_string()]).is_err());
    assert!(overrides.get("a").is_none());
    assert_eq!(
        overrides.resolve(ModIdentifier::PinnedModrinthProject("P7dR8mSH".to_string(), "v".to_string())),
        ModIdentifier::CurseForgeProject(12)
    );
    assert_eq!(
        overrides.resolve(ModIdentifier::CurseForgeProject(5)),
        ModIdentifier::CurseForgeProject(5)
    );
}

#[test]
fn identifiers_have_a_string_form() {
    assert_eq!(ModIdentifier::CurseForgeProject(306612).key(), "306612");
    assert_eq!(ModIdentifier::PinnedCurseForgeProject(306612, 9).key(), "306612");
    assert_eq!(ModIdentifier::ModrinthProject("P7dR8mSH".to_string()).key(), "P7dR8mSH");
    assert_eq!(
        ModIdentifier::GitHubRepository("owner".to_string(), "repo".to_string()).key(),
        "owner/repo"
    );
    assert_eq!(
        ModIdentifier::PinnedGitHubRepository(("owner".to_string(), "repo".to_string()), 3).key(),
        "owner/repo"
    );
    assert_ne!(
        ModIdentifier::ModrinthProject("a".to_string()),
        ModIdentifier::PinnedModrinthProject("a".to_string(), "v".to_string())
    );
    assert_ne!(ModIdentifier::CurseForgeProject(1), ModIdentifier::CurseForgeProject(2));
}
