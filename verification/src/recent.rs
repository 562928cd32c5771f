//! The folders this machine has curated before, newest first.
//!
//! The list itself is plain data and the rules for keeping it are here: opening a folder moves it to
//! the top rather than adding a second entry, the list never holds more than [`KEEP`] folders, and
//! forgetting one takes out every entry naming it. Reading the list from disk and writing it back
//! are the caller's, and neither is ever an error: a list that cannot be read is an empty one.

use vstd::prelude::*;
use crate::text::{chars_of, split_chars, split_on, same_chars};

verus! {

/// How many folders to remember.
///
/// Enough that a person moving between the handful of corpora they actually work on never has to
/// browse for one, and few enough that the list stays a list rather than a history.
pub const KEEP: usize = 12;

/// The environment variable that says where this run's list goes: unset is the platform's config
/// directory, set and empty is nowhere, and anything else is that file.
pub const ENV_VAR: &'static str = "KM_PACKAGE_BUILDER_RECENT";

// -- where the list is kept ----------------------------------------------------------------

/// The name the list's file has in the configuration folder.
pub const LIST_FILE: &'static str = "recent.json";

/// The name this program's per-user folders go under.
pub const APP_FOLDER: &'static str = "km-package-builder";

/// Whether `s` ends with `tail`.
pub open spec fn ends_with(s: Seq<char>, tail: Seq<char>) -> bool {
    tail.len() <= s.len() && s.skip(s.len() - tail.len()) == tail
}

/// Calls `directories::ProjectDirs::from("", "", app)` and joins `name` onto the configuration
/// folder it names, read back with `to_string_lossy`.
///
/// Where that folder is depends on the platform and the environment, so of the answer only this is
/// claimed: a relative name with no separator in it is joined on at the end, as `Path::join`
/// documents, so the path given back ends with it. `None` when the platform will not say where
/// per-user configuration goes.
#[verifier::external_body]
fn config_file(app: &str, name: &str) -> (file: Option<String>)
    requires
        name@.len() > 0,
        !name@.contains('/'),
        !name@.contains('\\'),
        !name@.contains(':'),
    ensures
        file matches Some(f) ==> ends_with(f@, name@),
{
    let dirs = directories::ProjectDirs::from("", "", app)?;
    Some(dirs.config_dir().join(name).to_string_lossy().into_owned())
}

/// Where the list goes, given what [`ENV_VAR`] was set to: set and empty is nowhere, which is the
/// whole opt-out; set is that file; unset is `recent.json` in the platform's configuration folder
/// for this program, which depends on the machine and may not exist.
pub fn file_for(setting: Option<&str>) -> (file: Option<String>)
    ensures
        match setting {
            Some(named) => if named@.len() == 0 {
                file is None
            } else {
                file matches Some(f) && f@ == named@
            },
            None => file matches Some(f) ==> ends_with(f@, LIST_FILE@),
        },
{
    match setting {
        Some(named) => {
            if chars_of(named).len() == 0 {
                None
            } else {
                Some(crate::text::owned(named))
            }
        },
        None => {
            proof {
                reveal_strlit("recent.json");
                assert(!LIST_FILE@.contains('/'));
                assert(!LIST_FILE@.contains('\\'));
                assert(!LIST_FILE@.contains(':'));
            }
            config_file(APP_FOLDER, LIST_FILE)
        },
    }
}

// -- which paths are the same folder -------------------------------------------------------

/// The named components of a `/`-separated path, as `Path::components` yields them: empty pieces
/// (repeated or trailing separators) and `.` pieces are dropped.
pub open spec fn named_parts(pieces: Seq<Seq<char>>) -> Seq<Seq<char>>
    decreases pieces.len(),
{
    if pieces.len() == 0 {
        seq![]
    } else {
        let rest = named_parts(pieces.drop_last());
        let p = pieces.last();
        if p.len() == 0 || p == seq!['.'] {
            rest
        } else {
            rest.push(p)
        }
    }
}

/// A path with every `\` written as `/` when `\` separates components too (`backslash`), as it
/// does on Windows; as it is otherwise.
pub open spec fn slashed(path: Seq<char>, backslash: bool) -> Seq<char> {
    if backslash {
        path.map_values(|c: char| if c == '\\' { '/' } else { c })
    } else {
        path
    }
}

/// What `Path` compares two paths by: whether it starts at the root, whether a relative path starts
/// with `.` (the one place a `.` is kept), and its named components. `/` always separates them, and
/// `\` too where the platform says so (`backslash`).
pub open spec fn components_of(path: Seq<char>, backslash: bool) -> (bool, bool, Seq<Seq<char>>) {
    let p = slashed(path, backslash);
    let pieces = split_on(p, '/');
    let rooted = p.len() > 0 && p[0] == '/';
    (rooted, !rooted && pieces[0] == seq!['.'], named_parts(pieces))
}

/// Whether two paths name the same place as far as `Path`'s `==` can tell, which is component by
/// component: `/tunes/karaoke/` and `/tunes//karaoke` are the same path, `/tunes` and `tunes` are
/// not, and `C:\tunes\` and `C:\tunes` are the same where `\` separates.
pub open spec fn same_path(a: Seq<char>, b: Seq<char>, backslash: bool) -> bool {
    components_of(a, backslash) == components_of(b, backslash)
}

/// A path with no `\` reads the same whether or not `\` separates.
pub proof fn lemma_no_backslash_reads_alike(path: Seq<char>)
    requires
        !path.contains('\\'),
    ensures
        slashed(path, true) == path,
        components_of(path, true) == components_of(path, false),
{
    assert(slashed(path, true) =~= path) by {
        assert forall|i: int| 0 <= i < path.len() implies slashed(path, true)[i] == path[i] by {
            if path[i] == '\\' {
                assert(path.contains('\\'));
            }
        }
    }
}

/// Calls `std::path::is_separator`, which says whether a character separates path components on
/// this platform. Its documentation shows `/` doing so; which other characters do (`\` on Windows)
/// depends on the platform the program was built for, so nothing more is claimed.
#[verifier::external_body]
fn is_separator(c: char) -> (r: bool)
    ensures
        c == '/' ==> r,
{
    std::path::is_separator(c)
}

/// The path with each `\` written as `/`, when `backslash`.
fn slashed_chars(v: Vec<char>, backslash: bool) -> (out: Vec<char>)
    ensures
        out@ == slashed(v@, backslash),
{
    if !backslash {
        return v;
    }
    let mut out: Vec<char> = Vec::new();
    let mut i: usize = 0;
    while i < v.len()
        invariant
            i <= v@.len(),
            out@ == v@.take(i as int).map_values(|c: char| if c == '\\' { '/' } else { c }),
        decreases v@.len() - i,
    {
        let c = v[i];
        out.push(if c == '\\' { '/' } else { c });
        proof {
            assert(v@.take(i + 1) =~= v@.take(i as int).push(c));
        }
        i = i + 1;
    }
    proof {
        assert(v@.take(v@.len() as int) =~= v@);
    }
    out
}

fn component_key(path: &str, backslash: bool) -> (key: (bool, bool, Vec<Vec<char>>))
    ensures
        key.0 == components_of(path@, backslash).0,
        key.1 == components_of(path@, backslash).1,
        key.2@.map_values(|p: Vec<char>| p@) == components_of(path@, backslash).2,
{
    let v = slashed_chars(chars_of(path), backslash);
    let pieces = split_chars(v.as_slice(), '/');
    let ghost ps = pieces@.map_values(|p: Vec<char>| p@);
    let rooted = v.len() > 0 && v[0] == '/';
    proof {
        assert(split_on(v@, '/').len() >= 1);
    }
    let first = &pieces[0];
    let dot = first.len() == 1 && first[0] == '.';
    proof {
        assert(ps[0] == first@);
        if first@.len() == 1 {
            if dot {
                assert(first@ =~= seq!['.']);
            } else {
                assert(first@[0] != seq!['.'][0]);
            }
        } else {
            assert(first@.len() != seq!['.'].len());
        }
    }
    let mut parts: Vec<Vec<char>> = Vec::new();
    let mut i: usize = 0;
    while i < pieces.len()
        invariant
            i <= pieces@.len(),
            ps == pieces@.map_values(|p: Vec<char>| p@),
            parts@.map_values(|p: Vec<char>| p@) == named_parts(ps.take(i as int)),
        decreases pieces@.len() - i,
    {
        let p = &pieces[i];
        proof {
            assert(ps.take(i + 1).drop_last() =~= ps.take(i as int));
            assert(ps.take(i + 1).last() == p@);
        }
        let skip = p.len() == 0 || (p.len() == 1 && p[0] == '.');
        proof {
            if p@.len() == 1 {
                if p[0] == '.' {
                    assert(p@ =~= seq!['.']);
                } else {
                    assert(p@[0] != seq!['.'][0]);
                }
            } else {
                assert(p@.len() != seq!['.'].len());
            }
        }
        if !skip {
            let kept = crate::text::slice_of(p.as_slice(), 0, p.len());
            proof {
                assert(kept@ =~= p@);
            }
            let ghost before = parts@.map_values(|q: Vec<char>| q@);
            parts.push(kept);
            proof {
                assert(parts@.map_values(|q: Vec<char>| q@) =~= before.push(p@));
            }
        }
        i = i + 1;
    }
    proof {
        assert(ps.take(pieces@.len() as int) =~= ps);
    }
    (rooted, !rooted && dot, parts)
}

/// Whether two paths name the same place, compared component by component as `Path` does, where
/// `\` separates components when `backslash`.
pub fn paths_match_where(a: &str, b: &str, backslash: bool) -> (same: bool)
    ensures
        same == same_path(a@, b@, backslash),
{
    let ka = component_key(a, backslash);
    let kb = component_key(b, backslash);
    let ghost pa = ka.2@.map_values(|p: Vec<char>| p@);
    let ghost pb = kb.2@.map_values(|p: Vec<char>| p@);
    if ka.0 != kb.0 || ka.1 != kb.1 || ka.2.len() != kb.2.len() {
        proof {
            if ka.2.len() != kb.2.len() {
                assert(pa.len() != pb.len());
                assert(pa != pb);
            }
            assert(components_of(a@, backslash) != components_of(b@, backslash));
        }
        return false;
    }
    let mut i: usize = 0;
    while i < ka.2.len()
        invariant
            i <= ka.2@.len(),
            ka.2@.len() == kb.2@.len(),
            pa == ka.2@.map_values(|p: Vec<char>| p@),
            pb == kb.2@.map_values(|p: Vec<char>| p@),
            forall|j: int| 0 <= j < i ==> pa[j] == pb[j],
            components_of(a@, backslash).2 == pa,
            components_of(b@, backslash).2 == pb,
            components_of(a@, backslash).0 == components_of(b@, backslash).0,
            components_of(a@, backslash).1 == components_of(b@, backslash).1,
        decreases ka.2@.len() - i,
    {
        if !same_chars(ka.2[i].as_slice(), kb.2[i].as_slice()) {
            proof {
                assert(pa[i as int] != pb[i as int]);
                assert(pa != pb);
            }
            return false;
        }
        i = i + 1;
    }
    proof {
        assert(pa =~= pb);
    }
    true
}

/// Whether two paths name the same place, compared component by component as `Path` does on this
/// platform. Paths with no `\` compare the same everywhere.
pub fn paths_match(a: &str, b: &str) -> (same: bool)
    ensures
        same == same_path(a@, b@, false) || same == same_path(a@, b@, true),
        !a@.contains('\\') && !b@.contains('\\') ==> same == same_path(a@, b@, false),
{
    let backslash = is_separator('\\');
    proof {
        if !a@.contains('\\') && !b@.contains('\\') {
            lemma_no_backslash_reads_alike(a@);
            lemma_no_backslash_reads_alike(b@);
        }
    }
    paths_match_where(a, b, backslash)
}

// -- the list ------------------------------------------------------------------------------

/// One remembered folder.
#[derive(Debug)]
pub struct Entry {
    /// Where it is.
    pub path: String,
    /// Songs indexed when it was last open, for the line under the path.
    pub songs: u32,
    /// Files indexed when it was last open.
    pub files: u32,
}

impl View for Entry {
    type V = (Seq<char>, u32, u32);

    open spec fn view(&self) -> (Seq<char>, u32, u32) {
        (self.path@, self.songs, self.files)
    }
}

impl Entry {
    /// The same entry, as a value of its own.
    pub fn duplicate(&self) -> (e: Entry)
        ensures
            e@ == self@,
    {
        Entry { path: self.path.clone(), songs: self.songs, files: self.files }
    }
}

/// The entries of a list, each as its path and its two counts.
pub open spec fn entries(folders: Seq<Entry>) -> Seq<(Seq<char>, u32, u32)> {
    folders.map_values(|e: Entry| e@)
}

/// The entries that do not name `root`, in the order they came.
pub open spec fn others(list: Seq<(Seq<char>, u32, u32)>, root: Seq<char>, backslash: bool) -> Seq<(Seq<char>, u32, u32)>
    decreases list.len(),
{
    if list.len() == 0 {
        seq![]
    } else {
        let rest = others(list.drop_last(), root, backslash);
        if same_path(list.last().0, root, backslash) {
            rest
        } else {
            rest.push(list.last())
        }
    }
}

/// A list cut down to the [`KEEP`] newest.
pub open spec fn capped(list: Seq<(Seq<char>, u32, u32)>) -> Seq<(Seq<char>, u32, u32)> {
    if list.len() <= KEEP {
        list
    } else {
        list.take(KEEP as int)
    }
}

/// The list after opening `root`: that folder first with the counts it has now, then every other
/// folder as it was, cut down to the [`KEEP`] newest.
pub open spec fn remembered(
    list: Seq<(Seq<char>, u32, u32)>,
    root: Seq<char>,
    songs: u32,
    files: u32,
    backslash: bool,
) -> Seq<(Seq<char>, u32, u32)> {
    capped(seq![(root, songs, files)] + others(list, root, backslash))
}

/// The remembered list, newest first.
#[derive(Debug)]
pub struct Recent {
    /// Most recently opened first.
    pub folders: Vec<Entry>,
    /// Where this list came from and goes back to, or `None` for one that is only ever in memory.
    ///
    /// A field rather than a lookup at each end, so that "nowhere to save" has a value: a default
    /// list is one, which is what keeps a list built by hand from ever reaching the config
    /// directory.
    pub file: Option<String>,
}

impl Default for Recent {
    fn default() -> (r: Recent)
        ensures
            r.folders@.len() == 0,
            r.file is None,
    {
        Recent { folders: Vec::new(), file: None }
    }
}

/// Whether neither the folder named nor any path in the list holds a `\`, so that they compare
/// the same on every platform.
pub open spec fn plain_paths(list: Seq<(Seq<char>, u32, u32)>, root: Seq<char>) -> bool {
    &&& !root.contains('\\')
    &&& forall|i: int| 0 <= i < list.len() ==> !(#[trigger] list[i]).0.contains('\\')
}

impl Recent {
    /// The entries that do not name `root`, copied out in order.
    fn others_than(&self, root: &str, backslash: bool) -> (out: Vec<Entry>)
        ensures
            entries(out@) == others(entries(self.folders@), root@, backslash),
    {
        let ghost all = entries(self.folders@);
        let mut out: Vec<Entry> = Vec::new();
        let mut i: usize = 0;
        while i < self.folders.len()
            invariant
                i <= self.folders@.len(),
                all == entries(self.folders@),
                entries(out@) == others(all.take(i as int), root@, backslash),
            decreases self.folders@.len() - i,
        {
            let e = &self.folders[i];
            proof {
                assert(all.take(i + 1).drop_last() =~= all.take(i as int));
                assert(all.take(i + 1).last() == e@);
            }
            if !paths_match_where(e.path.as_str(), root, backslash) {
                let ghost before = entries(out@);
                out.push(e.duplicate());
                proof {
                    assert(entries(out@) =~= before.push(e@));
                }
            }
            i = i + 1;
        }
        proof {
            assert(all.take(self.folders@.len() as int) =~= all);
        }
        out
    }

    /// Puts a folder at the top, with the counts it had when it was open.
    ///
    /// Moves rather than duplicates: opening the same folder twice leaves one entry, at the top.
    /// Paths are compared as this platform's `Path` compares them, which differs between platforms
    /// only for paths holding a `\`. Writing the list back is the caller's, to [`Self::file`].
    pub fn remember(&mut self, root: &str, songs: u32, files: u32)
        ensures
            entries(final(self).folders@) == remembered(entries(old(self).folders@), root@, songs, files, false)
                || entries(final(self).folders@) == remembered(entries(old(self).folders@), root@, songs, files, true),
            plain_paths(entries(old(self).folders@), root@) ==> entries(final(self).folders@) == remembered(
                entries(old(self).folders@),
                root@,
                songs,
                files,
                false,
            ),
            final(self).file == old(self).file,
    {
        let backslash = is_separator('\\');
        proof {
            if plain_paths(entries(self.folders@), root@) {
                lemma_others_plain(entries(self.folders@), root@);
            }
        }
        let rest = self.others_than(root, backslash);
        let mut list: Vec<Entry> = Vec::new();
        list.push(Entry { path: crate::text::owned(root), songs, files });
        let ghost head = seq![(root@, songs, files)];
        let ghost tail = entries(rest@);
        proof {
            assert(entries(list@) =~= head);
        }
        let mut i: usize = 0;
        while i < rest.len() && list.len() < KEEP
            invariant
                i <= rest@.len(),
                tail == entries(rest@),
                list@.len() == 1 + i,
                list@.len() <= KEEP,
                entries(list@) == head + tail.take(i as int),
            decreases rest@.len() - i,
        {
            let ghost before = entries(list@);
            list.push(rest[i].duplicate());
            proof {
                assert(tail.take(i + 1) =~= tail.take(i as int).push(tail[i as int]));
                assert(entries(list@) =~= before.push(rest@[i as int]@));
            }
            i = i + 1;
        }
        proof {
            let all = head + tail;
            if i == rest@.len() {
                assert(tail.take(i as int) =~= tail);
                assert(all.len() <= KEEP);
            } else {
                assert(list@.len() == KEEP);
                assert(head + tail.take(i as int) =~= all.take(KEEP as int));
            }
        }
        self.folders = list;
    }

    /// Takes a folder out of the list, comparing paths as this platform's `Path` does. Writing the
    /// list back is the caller's.
    pub fn forget(&mut self, root: &str)
        ensures
            entries(final(self).folders@) == others(entries(old(self).folders@), root@, false)
                || entries(final(self).folders@) == others(entries(old(self).folders@), root@, true),
            plain_paths(entries(old(self).folders@), root@) ==> entries(final(self).folders@) == others(
                entries(old(self).folders@),
                root@,
                false,
            ),
            final(self).file == old(self).file,
    {
        let backslash = is_separator('\\');
        proof {
            if plain_paths(entries(self.folders@), root@) {
                lemma_others_plain(entries(self.folders@), root@);
            }
        }
        let rest = self.others_than(root, backslash);
        self.folders = rest;
    }
}

// -- what the list promises ----------------------------------------------------------------

proof fn lemma_others_avoid(list: Seq<(Seq<char>, u32, u32)>, root: Seq<char>, backslash: bool)
    ensures
        forall|i: int| 0 <= i < others(list, root, backslash).len() ==> !same_path(#[trigger] others(list, root, backslash)[i].0, root, backslash),
        others(list, root, backslash).len() <= list.len(),
    decreases list.len(),
{
    if list.len() > 0 {
        lemma_others_avoid(list.drop_last(), root, backslash);
    }
}

proof fn lemma_others_of_others(list: Seq<(Seq<char>, u32, u32)>, root: Seq<char>, backslash: bool)
    ensures
        others(others(list, root, backslash), root, backslash) == others(list, root, backslash),
    decreases list.len(),
{
    if list.len() > 0 {
        lemma_others_of_others(list.drop_last(), root, backslash);
        let rest = others(list.drop_last(), root, backslash);
        if !same_path(list.last().0, root, backslash) {
            assert(rest.push(list.last()).drop_last() =~= rest);
        }
    }
}

proof fn lemma_others_of_short(list: Seq<(Seq<char>, u32, u32)>, root: Seq<char>, backslash: bool, n: int)
    requires
        0 <= n <= list.len(),
    ensures
        others(list.take(n), root, backslash) == others(list, root, backslash).take(others(list.take(n), root, backslash).len() as int),
        others(list.take(n), root, backslash).len() <= others(list, root, backslash).len(),
    decreases list.len() - n,
{
    if n < list.len() {
        lemma_others_of_short(list, root, backslash, n + 1);
        assert(list.take(n + 1).drop_last() =~= list.take(n));
        let a = others(list.take(n), root, backslash);
        let b = others(list.take(n + 1), root, backslash);
        if same_path(list[n].0, root, backslash) {
            assert(b == a);
        } else {
            assert(b == a.push(list[n]));
            assert(b.take(a.len() as int) =~= a);
        }
    } else {
        assert(list.take(n) =~= list);
        assert(others(list, root, backslash).take(others(list, root, backslash).len() as int) =~= others(list, root, backslash));
    }
}

/// Opening a folder moves it rather than duplicating it: afterwards it is the first entry, with the
/// counts it was opened with, and no other entry names it.
pub proof fn law_remembering_moves_rather_than_duplicates(
    list: Seq<(Seq<char>, u32, u32)>,
    root: Seq<char>,
    songs: u32,
    files: u32,
    backslash: bool,
)
    ensures
        remembered(list, root, songs, files, backslash).len() >= 1,
        remembered(list, root, songs, files, backslash)[0] == (root, songs, files),
        forall|i: int|
            1 <= i < remembered(list, root, songs, files, backslash).len() ==> !same_path(
                #[trigger] remembered(list, root, songs, files, backslash)[i].0,
                root,
                backslash,
            ),
{
    lemma_others_avoid(list, root, backslash);
    let all = seq![(root, songs, files)] + others(list, root, backslash);
    assert forall|i: int| 1 <= i < remembered(list, root, songs, files, backslash).len() implies !same_path(
        #[trigger] remembered(list, root, songs, files, backslash)[i].0,
        root,
        backslash,
    ) by {
        assert(remembered(list, root, songs, files, backslash)[i] == all[i]);
        assert(all[i] == others(list, root, backslash)[i - 1]);
    }
}

/// The list stays a list: however many folders are opened, it never holds more than [`KEEP`].
pub proof fn law_the_list_stays_a_list(
    list: Seq<(Seq<char>, u32, u32)>,
    root: Seq<char>,
    songs: u32,
    files: u32,
    backslash: bool,
)
    ensures
        remembered(list, root, songs, files, backslash).len() <= KEEP,
        remembered(list, root, songs, files, backslash).len() == if others(list, root, backslash).len() < KEEP {
            others(list, root, backslash).len() + 1
        } else {
            KEEP as nat
        },
{
}

/// The folders other than the one opened keep their order and their counts: the list after opening
/// is the opened folder followed by the start of what was there without it.
pub proof fn law_the_others_keep_their_order(
    list: Seq<(Seq<char>, u32, u32)>,
    root: Seq<char>,
    songs: u32,
    files: u32,
    backslash: bool,
)
    ensures
        remembered(list, root, songs, files, backslash).drop_first() == others(list, root, backslash).take(
            remembered(list, root, songs, files, backslash).len() - 1,
        ),
{
    let all = seq![(root, songs, files)] + others(list, root, backslash);
    assert(remembered(list, root, songs, files, backslash).drop_first() =~= others(list, root, backslash).take(
        remembered(list, root, songs, files, backslash).len() - 1,
    ));
}

/// Forgetting a folder leaves no entry naming it, and forgetting it twice is forgetting it once.
pub proof fn law_forgetting_leaves_nothing_behind(list: Seq<(Seq<char>, u32, u32)>, root: Seq<char>, backslash: bool)
    ensures
        forall|i: int| 0 <= i < others(list, root, backslash).len() ==> !same_path(#[trigger] others(list, root, backslash)[i].0, root, backslash),
        others(others(list, root, backslash), root, backslash) == others(list, root, backslash),
{
    lemma_others_avoid(list, root, backslash);
    lemma_others_of_others(list, root, backslash);
}

/// Forgetting a folder undoes opening it: as long as opening it pushed nothing off the end, the list
/// after opening and then forgetting a folder is the list after only forgetting it.
pub proof fn law_forgetting_undoes_remembering(
    list: Seq<(Seq<char>, u32, u32)>,
    root: Seq<char>,
    songs: u32,
    files: u32,
    backslash: bool,
)
    requires
        others(list, root, backslash).len() < KEEP,
    ensures
        others(remembered(list, root, songs, files, backslash), root, backslash) == others(list, root, backslash),
{
    let head = seq![(root, songs, files)];
    let tail = others(list, root, backslash);
    let all = head + tail;
    assert(remembered(list, root, songs, files, backslash) == all);
    lemma_others_of_others(list, root, backslash);
    lemma_others_prepend_named(tail, root, songs, files, backslash);
}

proof fn lemma_others_prepend_named(tail: Seq<(Seq<char>, u32, u32)>, root: Seq<char>, songs: u32, files: u32, backslash: bool)
    ensures
        others(seq![(root, songs, files)] + tail, root, backslash) == others(tail, root, backslash),
    decreases tail.len(),
{
    let head = seq![(root, songs, files)];
    if tail.len() == 0 {
        assert(head + tail =~= head);
        assert(head.drop_last() =~= Seq::<(Seq<char>, u32, u32)>::empty());
        assert(others(head.drop_last(), root, backslash) =~= Seq::<(Seq<char>, u32, u32)>::empty());
        assert(same_path(head.last().0, root, backslash));
        assert(others(head, root, backslash) =~= Seq::<(Seq<char>, u32, u32)>::empty());
        assert(others(tail, root, backslash) =~= Seq::<(Seq<char>, u32, u32)>::empty());
    } else {
        lemma_others_prepend_named(tail.drop_last(), root, songs, files, backslash);
        assert((head + tail).drop_last() =~= head + tail.drop_last());
        assert((head + tail).last() == tail.last());
        assert(others(head + tail, root, backslash) == if same_path(tail.last().0, root, backslash) {
            others(head + tail.drop_last(), root, backslash)
        } else {
            others(head + tail.drop_last(), root, backslash).push(tail.last())
        });
    }
}

/// Where no path holds a `\`, which characters separate makes no difference to what is kept.
proof fn lemma_others_plain(list: Seq<(Seq<char>, u32, u32)>, root: Seq<char>)
    requires
        plain_paths(list, root),
    ensures
        others(list, root, true) == others(list, root, false),
    decreases list.len(),
{
    if list.len() > 0 {
        assert(plain_paths(list.drop_last(), root)) by {
            assert forall|i: int| 0 <= i < list.drop_last().len() implies !(#[trigger] list.drop_last()[i]).0.contains('\\') by {
                assert(list.drop_last()[i] == list[i]);
            }
        }
        lemma_others_plain(list.drop_last(), root);
        assert(!list[list.len() - 1].0.contains('\\'));
        lemma_no_backslash_reads_alike(list.last().0);
        lemma_no_backslash_reads_alike(root);
    }
}

} // verus!
