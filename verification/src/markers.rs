//! The disabled marker: the file name of an installed mod that is disabled
//! carries the suffix `.disabled`.
//!
//! An installed mod is a file whose extension is `jar`, in any case of the
//! letters. A marked file is a file whose name is that of an installed mod
//! followed by the marker. Every file belongs to at most one mod, which is
//! known by its slug. The scan compares the disabled mods of a profile to
//! the files of its output directory and says which files are to be renamed
//! so that exactly the files of disabled mods are marked.

use crate::profile::{mod_views, opt_view, Mod, ModView};
use crate::text::{chars_eq, chars_eq_ignore_case, chars_of, ends_with, eq_ignore_case, is_suffix, slice_chars, string_of};
use vstd::prelude::*;

verus! {

/// The suffix that marks the file of a disabled mod.
pub open spec fn marker() -> Seq<char> {
    ".disabled"@
}

/// What is known of the marker's characters.
pub proof fn lemma_marker()
    ensures
        marker().len() == 9,
        marker()[0] == '.',
        marker()[8] == 'd',
        "jar"@.len() == 3,
        "jar"@[0] == 'j',
        "jar"@[1] == 'a',
        "jar"@[2] == 'r',
{
    reveal_strlit(".disabled");
    reveal_strlit("jar");
}

/// `name` is the file name of an installed mod: it has the extension `jar`,
/// in any case of the letters, and something before the dot.
pub open spec fn is_jar(name: Seq<char>) -> bool {
    &&& name.len() > 4
    &&& name[name.len() - 4] == '.'
    &&& eq_ignore_case(name.subrange(name.len() - 3, name.len() as int), "jar"@)
}

/// `name` without its last nine characters: the name of the installed mod,
/// where `name` is marked.
pub open spec fn unmarked(name: Seq<char>) -> Seq<char> {
    name.subrange(0, name.len() - 9)
}

/// `name` is the file name of an installed mod followed by the marker.
pub open spec fn is_marked(name: Seq<char>) -> bool {
    is_suffix(marker(), name) && is_jar(unmarked(name))
}

/// The slugs of the mods of `disabled` that have one.
pub open spec fn slug_set(disabled: Seq<ModView>) -> Set<Seq<char>> {
    Set::new(|s: Seq<char>| exists|i: int| 0 <= i < disabled.len() && (#[trigger] disabled[i]).slug == Some(s))
}

/// The file belongs to a disabled mod: the slug of its mod is known and is
/// among `slugs`.
pub open spec fn is_disabled(slug: Option<Seq<char>>, slugs: Set<Seq<char>>) -> bool {
    slug matches Some(s) && slugs.contains(s)
}

/// The name of an installed mod without its ending `.jar`.
pub open spec fn stem(name: Seq<char>) -> Seq<char> {
    name.subrange(0, name.len() - 4)
}

/// The slug that a file name itself states: the name of the installed mod,
/// marked or not, without its ending. None where the name is not that of an
/// installed mod.
pub open spec fn stated_slug(name: Seq<char>) -> Option<Seq<char>> {
    if is_jar(name) {
        Some(stem(name))
    } else if is_marked(name) {
        Some(stem(unmarked(name)))
    } else {
        None
    }
}

/// One entry of a directory.
#[derive(Debug)]
pub struct DirEntry {
    pub name: String,
    /// Whether the entry is a regular file.
    pub is_file: bool,
    /// The slug of the mod that the file belongs to, where that is known.
    pub slug: Option<String>,
}

/// What a [`DirEntry`] holds, as mathematical values.
pub struct DirEntryView {
    pub name: Seq<char>,
    pub is_file: bool,
    pub slug: Option<Seq<char>>,
}

impl View for DirEntry {
    type V = DirEntryView;

    open spec fn view(&self) -> DirEntryView {
        DirEntryView { name: self.name@, is_file: self.is_file, slug: opt_view(self.slug) }
    }
}

/// The views of a sequence of entries, in order.
pub open spec fn dir_views(s: Seq<DirEntry>) -> Seq<DirEntryView> {
    s.map_values(|e: DirEntry| e@)
}

/// A file to be renamed within its directory.
#[derive(Debug)]
pub struct Rename {
    pub from: String,
    pub to: String,
}

/// What a [`Rename`] holds, as mathematical values.
pub struct RenameView {
    pub from: Seq<char>,
    pub to: Seq<char>,
}

impl View for Rename {
    type V = RenameView;

    open spec fn view(&self) -> RenameView {
        RenameView { from: self.from@, to: self.to@ }
    }
}

/// The views of a sequence of renames, in order.
pub open spec fn rename_views(s: Seq<Rename>) -> Seq<RenameView> {
    s.map_values(|r: Rename| r@)
}

/// The name that the file `e` is to have after the scan: an installed mod
/// that belongs to a disabled mod gets the marker; a marked file loses the
/// marker where it belongs to no disabled mod; any other name stays.
pub open spec fn scan_target(e: DirEntryView, slugs: Set<Seq<char>>) -> Seq<char> {
    if is_jar(e.name) && is_disabled(e.slug, slugs) {
        e.name + marker()
    } else if is_marked(e.name) && !is_disabled(e.slug, slugs) {
        unmarked(e.name)
    } else {
        e.name
    }
}

/// The scan renames the entry `e`: it is a file, and the name it is to have
/// is not the one it has.
pub open spec fn needs_rename(e: DirEntryView, slugs: Set<Seq<char>>) -> bool {
    e.is_file && scan_target(e, slugs) != e.name
}

/// The renames of a scan of `entries`, in the order of the entries.
pub open spec fn renames(entries: Seq<DirEntryView>, slugs: Set<Seq<char>>) -> Seq<RenameView>
    decreases entries.len(),
{
    if entries.len() == 0 {
        Seq::empty()
    } else if needs_rename(entries.last(), slugs) {
        renames(entries.drop_last(), slugs).push(
            RenameView { from: entries.last().name, to: scan_target(entries.last(), slugs) },
        )
    } else {
        renames(entries.drop_last(), slugs)
    }
}

/// The entry `e` as the directory holds it after the scan: under its new
/// name where it was renamed, and belonging to the mod it belonged to.
pub open spec fn settled_entry(e: DirEntryView, slugs: Set<Seq<char>>) -> DirEntryView {
    if e.is_file {
        DirEntryView { name: scan_target(e, slugs), ..e }
    } else {
        e
    }
}

/// The entries of a directory after the renames of a scan were made.
pub open spec fn settled(entries: Seq<DirEntryView>, slugs: Set<Seq<char>>) -> Seq<DirEntryView> {
    entries.map_values(|e: DirEntryView| settled_entry(e, slugs))
}

/// An installed mod is not a marked file.
pub proof fn lemma_jar_not_marked(name: Seq<char>)
    requires
        is_jar(name),
    ensures
        !is_marked(name),
{
    lemma_marker();
    if is_suffix(marker(), name) {
        let tail = name.subrange(name.len() - 9, name.len() as int);
        assert(tail[8] == name[name.len() - 1]);
        let ext = name.subrange(name.len() - 3, name.len() as int);
        assert(ext[2] == name[name.len() - 1]);
        assert(crate::text::ascii_lower(ext[2]) == crate::text::ascii_lower("jar"@[2]));
    }
}

/// An installed mod with the marker after its name is a marked file, and the
/// name under the marker is its own.
pub proof fn lemma_marking(name: Seq<char>)
    requires
        is_jar(name),
    ensures
        is_marked(name + marker()),
        unmarked(name + marker()) == name,
        !is_jar(name + marker()),
{
    lemma_marker();
    let marked = name + marker();
    assert(marked.subrange(marked.len() - 9, marked.len() as int) =~= marker());
    assert(unmarked(marked) =~= name);
    if is_jar(marked) {
        lemma_jar_not_marked(marked);
    }
}

/// After the scan a file is marked exactly if it is the file of a disabled
/// mod: no marked file is left that belongs to no disabled mod, and no
/// installed mod is left unmarked that belongs to one.
pub proof fn lemma_scan_settles(e: DirEntryView, slugs: Set<Seq<char>>)
    requires
        e.is_file,
    ensures
        is_marked(settled_entry(e, slugs).name) ==> is_disabled(e.slug, slugs),
        is_jar(settled_entry(e, slugs).name) ==> !is_disabled(e.slug, slugs),
        settled_entry(e, slugs).slug == e.slug,
{
    if is_jar(e.name) {
        lemma_jar_not_marked(e.name);
        lemma_marking(e.name);
    } else if is_marked(e.name) {
        lemma_jar_not_marked(unmarked(e.name));
    }
}

/// Marker idempotence, for one file: the name that a scan gives a file is
/// one that a further scan leaves alone.
pub proof fn lemma_scan_target_idempotent(e: DirEntryView, slugs: Set<Seq<char>>)
    ensures
        !needs_rename(settled_entry(e, slugs), slugs),
{
    if e.is_file {
        lemma_scan_settles(e, slugs);
        let t = settled_entry(e, slugs);
        if is_jar(t.name) {
            lemma_jar_not_marked(t.name);
        }
    }
}

/// Marker idempotence: a scan of the directory as the renames of a first scan
/// left it, with the same mods disabled, renames nothing.
pub proof fn lemma_scan_idempotent(entries: Seq<DirEntryView>, slugs: Set<Seq<char>>)
    ensures
        renames(settled(entries, slugs), slugs) == Seq::<RenameView>::empty(),
    decreases entries.len(),
{
    if entries.len() > 0 {
        lemma_scan_idempotent(entries.drop_last(), slugs);
        assert(settled(entries, slugs).drop_last() =~= settled(entries.drop_last(), slugs));
        lemma_scan_target_idempotent(entries.last(), slugs);
    }
}

/// The first scan after a mod was disabled renames its installed file, and
/// that file alone among the files of a directory in which nothing was
/// marked and no other file belongs to a disabled mod.
pub proof fn lemma_scan_marks_disabled(
    entries: Seq<DirEntryView>,
    slugs: Set<Seq<char>>,
    i: int,
)
    requires
        0 <= i < entries.len(),
        entries[i].is_file,
        is_jar(entries[i].name),
        is_disabled(entries[i].slug, slugs),
        forall|j: int|
            0 <= j < entries.len() && j != i ==> !is_marked((#[trigger] entries[j]).name)
                && !is_disabled(entries[j].slug, slugs),
    ensures
        renames(entries, slugs) == seq![
            RenameView { from: entries[i].name, to: entries[i].name + marker() },
        ],
    decreases entries.len(),
{
    lemma_marking(entries[i].name);
    let front = entries.drop_last();
    if i == entries.len() - 1 {
        lemma_scan_renames_nothing(front, slugs);
        assert(Seq::<RenameView>::empty().push(
            RenameView { from: entries[i].name, to: entries[i].name + marker() },
        ) =~= seq![RenameView { from: entries[i].name, to: entries[i].name + marker() }]);
    } else {
        assert(front[i] == entries[i]);
        lemma_scan_marks_disabled(front, slugs, i);
    }
}

/// A scan renames nothing in a directory in which nothing is marked and no
/// file belongs to a disabled mod.
pub proof fn lemma_scan_renames_nothing(entries: Seq<DirEntryView>, slugs: Set<Seq<char>>)
    requires
        forall|j: int|
            0 <= j < entries.len() ==> !is_marked((#[trigger] entries[j]).name) && !is_disabled(
                entries[j].slug,
                slugs,
            ),
    ensures
        renames(entries, slugs) == Seq::<RenameView>::empty(),
    decreases entries.len(),
{
    if entries.len() > 0 {
        lemma_scan_renames_nothing(entries.drop_last(), slugs);
    }
}

/// Disable/enable round trip, on disk: the file of a mod gets the marker in
/// a scan made while the mod is disabled, and a scan made after the mod was
/// enabled again gives the file its name back.
pub proof fn lemma_marker_round_trip(
    e: DirEntryView,
    while_disabled: Set<Seq<char>>,
    after: Set<Seq<char>>,
)
    requires
        e.is_file,
        is_jar(e.name),
        is_disabled(e.slug, while_disabled),
        !is_disabled(e.slug, after),
    ensures
        scan_target(e, while_disabled) == e.name + marker(),
        scan_target(settled_entry(e, while_disabled), after) == e.name,
{
    lemma_marking(e.name);
}

/// Whether `name` is the file name of an installed mod.
pub fn is_jar_name(name: &Vec<char>) -> (r: bool)
    ensures
        r == is_jar(name@),
{
    let n = name.len();
    if n <= 4 {
        return false;
    }
    if name[n - 4] != '.' {
        return false;
    }
    let ext = slice_chars(name, n - 3, n);
    let jar = chars_of("jar");
    chars_eq_ignore_case(&ext, &jar)
}

/// Whether `name` is the file name of an installed mod followed by the
/// marker.
pub fn is_marked_name(name: &Vec<char>) -> (r: bool)
    ensures
        r == is_marked(name@),
{
    let suffix = chars_of(".disabled");
    proof {
        lemma_marker();
    }
    if !ends_with(name, &suffix) {
        return false;
    }
    let base = slice_chars(name, 0, name.len() - 9);
    is_jar_name(&base)
}

/// Whether the mod with the slug `slug` is one of `disabled`.
pub fn is_disabled_slug(disabled: &Vec<Mod>, slug: &Option<String>) -> (r: bool)
    ensures
        r == is_disabled(opt_view(*slug), slug_set(mod_views(disabled@))),
{
    let wanted = match slug {
        Some(slug) => chars_of(slug.as_str()),
        None => {
            return false;
        },
    };
    let mut i: usize = 0;
    while i < disabled.len()
        invariant
            i <= disabled.len(),
            opt_view(*slug) == Some(wanted@),
            forall|j: int| 0 <= j < i ==> (#[trigger] mod_views(disabled@)[j]).slug != Some(wanted@),
        decreases disabled.len() - i,
    {
        match &disabled[i].slug {
            Some(slug) => {
                let chars = chars_of(slug.as_str());
                if chars_eq(&chars, &wanted) {
                    assert(mod_views(disabled@)[i as int].slug == Some(wanted@));
                    return true;
                }
            },
            None => {},
        }
        i += 1;
    }
    false
}

impl DirEntry {
    /// The entry of the name `name` with the slug that the name itself
    /// states: the name of the installed mod without its ending.
    pub fn named(name: String, is_file: bool) -> (e: DirEntry)
        ensures
            e@ == (DirEntryView { name: name@, is_file, slug: stated_slug(name@) }),
    {
        let chars = chars_of(name.as_str());
        proof {
            lemma_marker();
            if is_jar(name@) {
                lemma_jar_not_marked(name@);
            }
        }
        let slug = if is_jar_name(&chars) {
            let short = slice_chars(&chars, 0, chars.len() - 4);
            Some(string_of(&short))
        } else if is_marked_name(&chars) {
            let short = slice_chars(&chars, 0, chars.len() - 13);
            assert(short@ =~= stem(unmarked(name@)));
            Some(string_of(&short))
        } else {
            None
        };
        DirEntry { name, is_file, slug }
    }
}

/// The name that the file `entry` is to have after the scan, where that is
/// not the name it has.
pub fn scan_file(entry: &DirEntry, disabled: &Vec<Mod>) -> (r: Option<String>)
    ensures
        match r {
            Some(to) => to@ == scan_target(entry@, slug_set(mod_views(disabled@))) && to@
                != entry@.name,
            None => scan_target(entry@, slug_set(mod_views(disabled@))) == entry@.name,
        },
{
    let chars = chars_of(entry.name.as_str());
    proof {
        lemma_marker();
        if is_jar(entry@.name) {
            lemma_jar_not_marked(entry@.name);
        }
    }
    if is_jar_name(&chars) {
        if is_disabled_slug(disabled, &entry.slug) {
            let mut to = entry.name.clone();
            to.append(".disabled");
            Some(to)
        } else {
            None
        }
    } else if is_marked_name(&chars) {
        if is_disabled_slug(disabled, &entry.slug) {
            None
        } else {
            let base = slice_chars(&chars, 0, chars.len() - 9);
            Some(string_of(&base))
        }
    } else {
        None
    }
}

/// The renames that make the marked files of a directory those of the
/// disabled mods: for each file of `entries` whose name is to change, its
/// name and the name it is to have, in the order of the entries.
pub fn scan_markers(entries: &Vec<DirEntry>, disabled: &Vec<Mod>) -> (r: Vec<Rename>)
    ensures
        rename_views(r@) == renames(dir_views(entries@), slug_set(mod_views(disabled@))),
{
    let ghost all = dir_views(entries@);
    let ghost slugs = slug_set(mod_views(disabled@));
    let mut out: Vec<Rename> = Vec::new();
    let mut i: usize = 0;
    assert(rename_views(out@) =~= renames(all.take(0), slugs));
    while i < entries.len()
        invariant
            i <= entries.len(),
            all == dir_views(entries@),
            slugs == slug_set(mod_views(disabled@)),
            rename_views(out@) == renames(all.take(i as int), slugs),
        decreases entries.len() - i,
    {
        let ghost so_far = rename_views(out@);
        assert(all.take(i as int + 1).drop_last() =~= all.take(i as int));
        assert(all.take(i as int + 1).last() == entries@[i as int]@);
        if entries[i].is_file {
            match scan_file(&entries[i], disabled) {
                Some(to) => {
                    let rename = Rename { from: entries[i].name.clone(), to };
                    out.push(rename);
                    assert(rename_views(out@) =~= so_far.push(rename@));
                },
                None => {},
            }
        }
        i += 1;
    }
    assert(all.take(i as int) =~= all);
    out
}

} // verus!
