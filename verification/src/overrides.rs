//! The override map: dependencies that are to be replaced by another project.

use crate::identifier::{ModIdentifier, ModIdentifierView};
use crate::text::{all_digits, chars_of, digits_value, find_from, lemma_find_from, parse_digits, slice_chars, str_eq, string_of};
use vstd::prelude::*;

verus! {

/// The views of a sequence of entries, in order.
pub open spec fn entry_views(s: Seq<(String, ModIdentifier)>) -> Seq<(Seq<char>, ModIdentifierView)> {
    s.map_values(|e: (String, ModIdentifier)| (e.0@, e.1@))
}

/// The map a sequence of entries stands for: a later entry replaces an
/// earlier one with the same key.
pub open spec fn map_of(s: Seq<(Seq<char>, ModIdentifierView)>) -> Map<Seq<char>, ModIdentifierView>
    decreases s.len(),
{
    if s.len() == 0 {
        Map::empty()
    } else {
        map_of(s.drop_last()).insert(s.last().0, s.last().1)
    }
}

/// The project that stands in for the dependency `dep`: the replacement that
/// `overrides` holds under the string form of `dep`, or `dep` itself where
/// it holds none.
pub open spec fn resolve(
    dep: ModIdentifierView,
    overrides: Map<Seq<char>, ModIdentifierView>,
) -> ModIdentifierView {
    if overrides.contains_key(dep.key()) {
        overrides[dep.key()]
    } else {
        dep
    }
}

/// The last entry with key `k` decides what the map holds under `k`.
pub proof fn lemma_map_of_last(s: Seq<(Seq<char>, ModIdentifierView)>, k: Seq<char>, i: int)
    requires
        0 <= i < s.len(),
        s[i].0 == k,
        forall|j: int| i < j < s.len() ==> s[j].0 != k,
    ensures
        map_of(s).contains_key(k),
        map_of(s)[k] == s[i].1,
    decreases s.len(),
{
    if i < s.len() - 1 {
        lemma_map_of_last(s.drop_last(), k, i);
    }
}

/// A key that no entry has is not in the map.
pub proof fn lemma_map_of_absent(s: Seq<(Seq<char>, ModIdentifierView)>, k: Seq<char>)
    requires
        forall|j: int| 0 <= j < s.len() ==> s[j].0 != k,
    ensures
        !map_of(s).contains_key(k),
    decreases s.len(),
{
    if s.len() > 0 {
        lemma_map_of_absent(s.drop_last(), k);
    }
}

/// Replacing the value of the last entry with key `k` is an insertion
/// under `k`.
pub proof fn lemma_map_of_update(
    s: Seq<(Seq<char>, ModIdentifierView)>,
    k: Seq<char>,
    v: ModIdentifierView,
    i: int,
)
    requires
        0 <= i < s.len(),
        s[i].0 == k,
        forall|j: int| i < j < s.len() ==> s[j].0 != k,
    ensures
        map_of(s.update(i, (k, v))) == map_of(s).insert(k, v),
    decreases s.len(),
{
    let t = s.update(i, (k, v));
    if i == s.len() - 1 {
        assert(t.drop_last() == s.drop_last());
        assert(map_of(t) =~= map_of(s).insert(k, v));
    } else {
        lemma_map_of_update(s.drop_last(), k, v, i);
        assert(t.drop_last() == s.drop_last().update(i, (k, v)));
        assert(t.last() == s.last());
        assert(map_of(t) =~= map_of(s).insert(k, v));
    }
}

/// A map from the string form of a dependency to the project to resolve in
/// its place.
#[derive(Debug)]
pub struct OverrideMap {
    entries: Vec<(String, ModIdentifier)>,
}

impl View for OverrideMap {
    type V = Map<Seq<char>, ModIdentifierView>;

    closed spec fn view(&self) -> Map<Seq<char>, ModIdentifierView> {
        map_of(entry_views(self.entries@))
    }
}

impl Clone for OverrideMap {
    fn clone(&self) -> (r: Self)
        ensures
            r@ == self@,
    {
        let mut entries: Vec<(String, ModIdentifier)> = Vec::new();
        let mut i: usize = 0;
        while i < self.entries.len()
            invariant
                i <= self.entries.len(),
                entries@ == self.entries@.take(i as int),
            decreases self.entries.len() - i,
        {
            let e = &self.entries[i];
            entries.push((e.0.clone(), e.1.clone()));
            i += 1;
            assert(self.entries@.take(i as int) == self.entries@.take(i as int - 1).push(
                self.entries@[i as int - 1],
            ));
        }
        assert(self.entries@.take(i as int) == self.entries@);
        OverrideMap { entries }
    }
}

impl OverrideMap {
    /// The map that holds nothing.
    pub fn new() -> (m: OverrideMap)
        ensures
            m@ == Map::<Seq<char>, ModIdentifierView>::empty(),
    {
        let m = OverrideMap { entries: Vec::new() };
        assert(entry_views(m.entries@) =~= Seq::empty());
        m
    }

    /// The position of the last entry with the key `key`.
    fn position(&self, key: &str) -> (r: Option<usize>)
        ensures
            match r {
                Some(i) => {
                    &&& i < self.entries@.len()
                    &&& self.entries@[i as int].0@ == key@
                    &&& forall|j: int| i < j < self.entries@.len() ==> self.entries@[j].0@ != key@
                },
                None => forall|j: int| 0 <= j < self.entries@.len() ==> self.entries@[j].0@ != key@,
            },
    {
        let mut i: usize = self.entries.len();
        while i > 0
            invariant
                i <= self.entries.len(),
                forall|j: int| i <= j < self.entries@.len() ==> self.entries@[j].0@ != key@,
            decreases i,
        {
            i -= 1;
            if str_eq(self.entries[i].0.as_str(), key) {
                return Some(i);
            }
        }
        None
    }

    /// Lets `value` stand in for the dependency whose string form is `key`,
    /// in place of what stood in for it before.
    pub fn insert(&mut self, key: String, value: ModIdentifier)
        ensures
            final(self)@ == old(self)@.insert(key@, value@),
    {
        let ghost before = entry_views(self.entries@);
        match self.position(key.as_str()) {
            Some(i) => {
                proof {
                    lemma_map_of_update(before, key@, value@, i as int);
                }
                self.entries[i] = (key, value);
                assert(entry_views(self.entries@) =~= before.update(i as int, (key@, value@)));
            },
            None => {
                self.entries.push((key, value));
                assert(entry_views(self.entries@).drop_last() =~= before);
            },
        }
    }

    /// The replacement held under `key`, if there is one.
    pub fn get(&self, key: &str) -> (r: Option<&ModIdentifier>)
        ensures
            match r {
                Some(v) => self@.contains_key(key@) && v@ == self@[key@],
                None => !self@.contains_key(key@),
            },
    {
        match self.position(key) {
            Some(i) => {
                proof {
                    lemma_map_of_last(entry_views(self.entries@), key@, i as int);
                }
                Some(&self.entries[i].1)
            },
            None => {
                proof {
                    lemma_map_of_absent(entry_views(self.entries@), key@);
                }
                None
            },
        }
    }

    /// The project to resolve for the dependency `dep`.
    pub fn resolve(&self, dep: ModIdentifier) -> (r: ModIdentifier)
        ensures
            r@ == resolve(dep@, self@),
    {
        let key = dep.key();
        match self.get(key.as_str()) {
            Some(v) => v.clone(),
            None => dep,
        }
    }

    /// The entries of the map.
    pub fn entries(&self) -> (r: Vec<(String, ModIdentifier)>)
        ensures
            map_of(entry_views(r@)) == self@,
    {
        self.clone().entries
    }
}

/// Why an override was not added.
#[derive(Debug)]
pub enum OverrideError {
    /// An override is made of two words: the dependency and what stands in
    /// for it.
    InvalidAmount,
    /// The word is made of digits but is no project number.
    InvalidNumber(String),
}

impl OverrideError {
    /// The text that tells the user of the error.
    pub fn message(&self) -> (s: String)
        ensures
            match self {
                OverrideError::InvalidAmount => s@ == "Invalid amount of arguments"@,
                OverrideError::InvalidNumber(word) => s@ == "Invalid project number: "@ + word@,
            },
    {
        match self {
            OverrideError::InvalidAmount => "Invalid amount of arguments".to_string(),
            OverrideError::InvalidNumber(word) => crate::text::joined(
                "Invalid project number: ",
                word.as_str(),
            ),
        }
    }
}

/// The project that the word `word` names: a repository where the word
/// holds a slash, its owner before the first slash and its name after it; a
/// CurseForge project where the word is made of digits; else a Modrinth
/// project. None where the digits write no number that fits an `i32`.
pub open spec fn target_of(word: Seq<char>) -> Option<ModIdentifierView> {
    let slash = find_from(word, 0, '/');
    if slash < word.len() {
        Some(
            ModIdentifierView::GitHubRepository(
                word.subrange(0, slash),
                word.subrange(slash + 1, word.len() as int),
            ),
        )
    } else if all_digits(word) {
        if word.len() > 0 && digits_value(word) <= i32::MAX {
            Some(ModIdentifierView::CurseForgeProject(digits_value(word) as int))
        } else {
            None
        }
    } else {
        Some(ModIdentifierView::ModrinthProject(word))
    }
}

/// The project that the word `word` names.
pub fn parse_target(word: &str) -> (r: Result<ModIdentifier, OverrideError>)
    ensures
        match r {
            Ok(id) => target_of(word@) == Some(id@),
            Err(e) => {
                &&& target_of(word@) is None
                &&& e matches OverrideError::InvalidNumber(w)
                &&& w@ == word@
            },
        },
{
    let chars = chars_of(word);
    let mut slash: usize = 0;
    while slash < chars.len() && chars[slash] != '/'
        invariant
            slash <= chars.len(),
            forall|j: int| 0 <= j < slash ==> #[trigger] chars@[j] != '/',
        decreases chars.len() - slash,
    {
        slash += 1;
    }
    proof {
        lemma_find_from(chars@, 0, '/', slash as int);
    }
    if slash < chars.len() {
        let owner = slice_chars(&chars, 0, slash);
        let name = slice_chars(&chars, slash + 1, chars.len());
        return Ok(ModIdentifier::GitHubRepository(string_of(&owner), string_of(&name)));
    }
    let mut i: usize = 0;
    while i < chars.len()
        invariant
            i <= chars.len(),
            chars@ == word@,
            find_from(word@, 0, '/') == word@.len(),
            forall|j: int| 0 <= j < i ==> crate::text::is_digit(#[trigger] chars@[j]),
        decreases chars.len() - i,
    {
        if !('0' <= chars[i] && chars[i] <= '9') {
            assert(!crate::text::is_digit(word@[i as int]));
            return Ok(ModIdentifier::ModrinthProject(word.to_string()));
        }
        i += 1;
    }
    match parse_digits(&chars) {
        Some(n) => Ok(ModIdentifier::CurseForgeProject(n)),
        None => Err(OverrideError::InvalidNumber(word.to_string())),
    }
}

/// Adds the override that the two words of `args` state: the project that
/// the second word names stands in for the dependency whose string form is
/// the first word. With another number of words, or a second word that
/// names no project, nothing is added.
pub fn add_override(overrides: &mut OverrideMap, args: &Vec<String>) -> (r: Result<(), OverrideError>)
    ensures
        match r {
            Ok(_) => {
                &&& args@.len() == 2
                &&& target_of(args@[1]@) matches Some(target)
                &&& final(overrides)@ == old(overrides)@.insert(args@[0]@, target)
            },
            Err(e) => final(overrides)@ == old(overrides)@ && (if args@.len() != 2 {
                e is InvalidAmount
            } else {
                target_of(args@[1]@) is None && e is InvalidNumber
            }),
        },
{
    if args.len() != 2 {
        return Err(OverrideError::InvalidAmount);
    }
    match parse_target(args[1].as_str()) {
        Ok(target) => {
            overrides.insert(args[0].clone(), target);
            Ok(())
        },
        Err(e) => Err(e),
    }
}

} // verus!
