//! The decisions of the actions that change many songs, or a package, in two steps: what a form
//! asks for, what it is refused for, when to count, when to show a confirmation and what it says,
//! and when to write. The counting, the reading and the writing are the caller's; each step takes
//! what they found and says what comes next, so the refusals come in the same order every time and a
//! confirmed write goes over exactly the set that was counted.

use vstd::prelude::*;
use crate::text::{chars_of, string_of, push_str, trim};
use crate::model::{FavoriteNode, PackageRow, DEFAULT_VOLUME_FORMAT};
use crate::form::{Fields, value_under, u32_value, parse_u32, NumberError};
use crate::requests::{parse_replace_slot, slot_reading};

verus! {

// -- favorites by id -----------------------------------------------------------------------

/// Where the first favorite with this id is in the list, if any is.
pub open spec fn favorite_at(favs: Seq<FavoriteNode>, id: i64) -> Option<int>
    decreases favs.len(),
{
    if favs.len() == 0 {
        None
    } else if favs[0].id == id {
        Some(0)
    } else {
        match favorite_at(favs.drop_first(), id) {
            Some(k) => Some(k + 1),
            None => None,
        }
    }
}

proof fn lemma_favorite_at(favs: Seq<FavoriteNode>, id: i64)
    ensures
        match favorite_at(favs, id) {
            Some(k) => 0 <= k < favs.len() && favs[k].id == id && forall|j: int| 0 <= j < k ==> #[trigger] favs[j].id != id,
            None => forall|j: int| 0 <= j < favs.len() ==> #[trigger] favs[j].id != id,
        },
    decreases favs.len(),
{
    if favs.len() > 0 {
        lemma_favorite_at(favs.drop_first(), id);
        assert forall|j: int| 0 < j < favs.len() implies #[trigger] favs[j] == favs.drop_first()[j - 1] by {}
    }
}

/// Where the first favorite with this id is, found by walking the list.
pub fn find_favorite(favs: &[FavoriteNode], id: i64) -> (at: Option<usize>)
    ensures
        match at {
            Some(k) => favorite_at(favs@, id) == Some(k as int) && k < favs@.len(),
            None => favorite_at(favs@, id) is None,
        },
{
    proof {
        lemma_favorite_at(favs@, id);
    }
    let mut i: usize = 0;
    while i < favs.len()
        invariant
            i <= favs@.len(),
            forall|j: int| 0 <= j < i ==> #[trigger] favs@[j].id != id,
            match favorite_at(favs@, id) {
                Some(k) => 0 <= k < favs@.len() && favs@[k].id == id && forall|j: int| 0 <= j < k ==> #[trigger] favs@[j].id != id,
                None => forall|j: int| 0 <= j < favs@.len() ==> #[trigger] favs@[j].id != id,
            },
        decreases favs@.len() - i,
    {
        if favs[i].id == id {
            proof {
                match favorite_at(favs@, id) {
                    Some(k) => {
                        if k < i {
                            assert(favs@[k].id != id);
                        }
                        if k > i {
                            assert(favs@[i as int].id != id);
                        }
                    },
                    None => {
                        assert(favs@[i as int].id != id);
                    },
                }
            }
            return Some(i);
        }
        i = i + 1;
    }
    proof {
        if let Some(k) = favorite_at(favs@, id) {
            assert(favs@[k].id != id);
        }
    }
    None
}

// -- answers shared by the two-step actions ------------------------------------------------

/// Why there is nothing to act on.
#[derive(Debug, Clone, Copy, PartialEq, Eq, Structural)]
pub enum Nothing {
    /// No row is ticked.
    Ticked,
    /// Rows are ticked, and none of them has an empty language.
    TickedUnset,
    /// The filter matches no song.
    Matches,
}

/// What a write answers, from how many songs it changed.
#[derive(Debug, Clone, Copy, PartialEq, Eq, Structural)]
pub enum Written {
    /// Nothing needed changing, which is success and not a fault.
    NothingChanged,
    /// This many songs changed.
    Changed(u32),
}

/// What a write answers, from how many songs it changed: zero is ordinary.
pub fn written(count: u32) -> (w: Written)
    ensures
        w == (if count == 0 {
            Written::NothingChanged
        } else {
            Written::Changed(count)
        }),
{
    if count == 0 {
        Written::NothingChanged
    } else {
        Written::Changed(count)
    }
}

/// How many ticked rows a confirmation counts, as a `u32`.
pub open spec fn ticked_count(ticked: nat) -> u32 {
    if ticked > u32::MAX {
        u32::MAX
    } else {
        ticked as u32
    }
}

// -- filing many songs in a favorite -------------------------------------------------------

/// What to do next with a request to file songs in a favorite, or take them out of one.
#[derive(Debug, Clone, Copy, PartialEq, Eq, Structural)]
pub enum BulkFavoriteDecision {
    /// The form names no favorite.
    ChooseAFavorite,
    /// Read the favorites and, for a whole filter, count the songs it matches; then ask again.
    Read { count_matching: bool },
    /// There is nothing to act on.
    Nothing(Nothing),
    /// The favorite named is no longer there.
    FavoriteGone,
    /// Ask first: this many songs, the favorite at this place in the list read, filing or taking
    /// out, and whether the filter is the whole corpus (a whole filter with no chip).
    Confirm { count: u32, favorite_at: usize, removing: bool, whole_corpus: bool },
    /// Confirmed: file the songs in the favorite (`file`) or take them out, over the whole filter
    /// or the ticked rows.
    Write { favorite: i64, file: bool, whole_filter: bool },
}

/// The step a request to file songs in a favorite takes. `read` is `None` until the favorites have
/// been read, then the count the filter matches (not read for ticked rows, which count themselves);
/// `chips` is how many chips the filter shows.
pub open spec fn bulk_favorite_of(
    favorite_id: Option<i64>,
    removing: bool,
    confirmed: bool,
    whole_filter: bool,
    ticked: nat,
    read: Option<u32>,
    favs: Seq<FavoriteNode>,
    chips: nat,
) -> BulkFavoriteDecision {
    match favorite_id {
        None => BulkFavoriteDecision::ChooseAFavorite,
        Some(id) => if confirmed {
            BulkFavoriteDecision::Write { favorite: id, file: !removing, whole_filter }
        } else {
            match read {
                None => BulkFavoriteDecision::Read { count_matching: whole_filter },
                Some(matching) => {
                    let count = if whole_filter {
                        matching
                    } else {
                        ticked_count(ticked)
                    };
                    if count == 0 {
                        BulkFavoriteDecision::Nothing(
                            if whole_filter {
                                Nothing::Matches
                            } else {
                                Nothing::Ticked
                            },
                        )
                    } else {
                        match favorite_at(favs, id) {
                            None => BulkFavoriteDecision::FavoriteGone,
                            Some(k) => BulkFavoriteDecision::Confirm {
                                count,
                                favorite_at: k as usize,
                                removing,
                                whole_corpus: whole_filter && chips == 0,
                            },
                        }
                    }
                },
            }
        },
    }
}

/// The next step of filing songs in a favorite, or taking them out of one.
pub fn bulk_favorite_step(
    favorite_id: Option<i64>,
    removing: bool,
    confirmed: bool,
    whole_filter: bool,
    ticked: usize,
    read: Option<u32>,
    favorites: &[FavoriteNode],
    chips: usize,
) -> (d: BulkFavoriteDecision)
    ensures
        d == bulk_favorite_of(favorite_id, removing, confirmed, whole_filter, ticked as nat, read, favorites@, chips as nat),
{
    let id = match favorite_id {
        None => {
            return BulkFavoriteDecision::ChooseAFavorite;
        },
        Some(id) => id,
    };
    if confirmed {
        return BulkFavoriteDecision::Write { favorite: id, file: !removing, whole_filter };
    }
    let matching = match read {
        None => {
            return BulkFavoriteDecision::Read { count_matching: whole_filter };
        },
        Some(m) => m,
    };
    let count: u32 = if whole_filter {
        matching
    } else if ticked > 0xffff_ffff {
        0xffff_ffff
    } else {
        ticked as u32
    };
    if count == 0 {
        return BulkFavoriteDecision::Nothing(
            if whole_filter {
                Nothing::Matches
            } else {
                Nothing::Ticked
            },
        );
    }
    match find_favorite(favorites, id) {
        None => BulkFavoriteDecision::FavoriteGone,
        Some(k) => BulkFavoriteDecision::Confirm {
            count,
            favorite_at: k,
            removing,
            whole_corpus: whole_filter && chips == 0,
        },
    }
}

// -- setting the language of many songs ----------------------------------------------------

/// What to do next with a request to set the language of many songs.
#[derive(Debug, Clone, Copy, PartialEq, Eq, Structural)]
pub enum BulkLanguageDecision {
    /// The value chosen is not a language code.
    NotALanguage,
    /// Count: the songs the filter matches (`count_matching`), or the ticked rows through the same
    /// narrowing the write will use (`count_ticked`), or neither when nothing is ticked; read the
    /// favorites; then ask again.
    Read { count_matching: bool, count_ticked: bool },
    /// There is nothing to act on.
    Nothing(Nothing),
    /// Ask first: this many songs; the ticked rows stand as one chip counting them
    /// (`ticked_chip`); `no_language_yet` adds the chip saying only songs with no language are
    /// written; and whether the filter is the whole corpus.
    Confirm { count: u32, ticked_chip: bool, no_language_yet: bool, whole_corpus: bool },
    /// Confirmed: write, over the whole filter or the ticked rows, only where no language is set
    /// when `only_unset`.
    Write { whole_filter: bool, only_unset: bool },
}

/// The step a request to set many songs' language takes. `language` is `None` when the form chose
/// no language (a deliberate clear), else whether the value chosen is a language code. `read` is
/// `None` until counted, then the count.
pub open spec fn bulk_language_of(
    language: Option<bool>,
    only_unset: bool,
    confirmed: bool,
    whole_filter: bool,
    ticked: nat,
    read: Option<u32>,
    chips: nat,
) -> BulkLanguageDecision {
    if language == Some(false) {
        BulkLanguageDecision::NotALanguage
    } else if confirmed {
        BulkLanguageDecision::Write { whole_filter, only_unset }
    } else {
        match read {
            None => BulkLanguageDecision::Read { count_matching: whole_filter, count_ticked: !whole_filter && ticked > 0 },
            Some(counted) => {
                let count = if !whole_filter && ticked == 0 {
                    0
                } else {
                    counted
                };
                if count == 0 {
                    BulkLanguageDecision::Nothing(
                        if whole_filter {
                            Nothing::Matches
                        } else if ticked == 0 {
                            Nothing::Ticked
                        } else {
                            Nothing::TickedUnset
                        },
                    )
                } else {
                    BulkLanguageDecision::Confirm {
                        count,
                        ticked_chip: !whole_filter,
                        no_language_yet: only_unset,
                        whole_corpus: whole_filter && chips == 0 && !only_unset,
                    }
                }
            },
        }
    }
}

/// The next step of setting many songs' language.
pub fn bulk_language_step(
    language: Option<bool>,
    only_unset: bool,
    confirmed: bool,
    whole_filter: bool,
    ticked: usize,
    read: Option<u32>,
    chips: usize,
) -> (d: BulkLanguageDecision)
    ensures
        d == bulk_language_of(language, only_unset, confirmed, whole_filter, ticked as nat, read, chips as nat),
{
    if language == Some(false) {
        return BulkLanguageDecision::NotALanguage;
    }
    if confirmed {
        return BulkLanguageDecision::Write { whole_filter, only_unset };
    }
    let counted = match read {
        None => {
            return BulkLanguageDecision::Read { count_matching: whole_filter, count_ticked: !whole_filter && ticked > 0 };
        },
        Some(c) => c,
    };
    let count: u32 = if !whole_filter && ticked == 0 {
        0
    } else {
        counted
    };
    if count == 0 {
        BulkLanguageDecision::Nothing(
            if whole_filter {
                Nothing::Matches
            } else if ticked == 0 {
                Nothing::Ticked
            } else {
                Nothing::TickedUnset
            },
        )
    } else {
        BulkLanguageDecision::Confirm {
            count,
            ticked_chip: !whole_filter,
            no_language_yet: only_unset,
            whole_corpus: whole_filter && chips == 0 && !only_unset,
        }
    }
}

// -- a package made from a filter ----------------------------------------------------------

/// What to do next with a request to make a package out of the filter.
#[derive(Debug, Clone, Copy, PartialEq, Eq, Structural)]
pub enum FromFilterDecision {
    /// The form names no package.
    NameThePackage,
    /// The name leaves nothing that can be a file name.
    NoFileName,
    /// Count the songs the filter matches, read the favorites, and find whether a package already
    /// has this file-name stem; then ask again.
    Read,
    /// The filter matches no song.
    NothingMatches,
    /// Another package's name makes the same file name.
    NameTaken,
    /// Ask first: this many songs, and the box offering the favorite at this place in the list
    /// read as the package's source, when there is one to offer.
    Confirm { count: u32, source_at: Option<usize> },
    /// Confirmed: create the package from the filter, sourced from this favorite when the box was
    /// offered for it and ticked.
    Create { source: Option<i64> },
}

/// The favorite a package made from the filter may be sourced from: the one list the filter
/// narrows by, when it narrows by nothing else, is still there, and is not a working list.
pub open spec fn offered_source(only_favorite: Option<i64>, favs: Seq<FavoriteNode>) -> Option<usize> {
    match only_favorite {
        None => None,
        Some(id) => match favorite_at(favs, id) {
            Some(k) => if !favs[k].temporary {
                Some(k as usize)
            } else {
                None
            },
            None => None,
        },
    }
}

/// The step a request to make a package out of the filter takes. `stem` is the file-name stem the
/// trimmed name folds to; `read` is `None` until read, then the count the filter matches and
/// whether the stem is taken; `only_favorite` is the one list the filter narrows by, when it
/// narrows by nothing else; `source_ticked` is whether the form carries the source box.
pub open spec fn from_filter_of(
    name: Seq<char>,
    stem: Seq<char>,
    confirmed: bool,
    read: Option<(u32, bool)>,
    only_favorite: Option<i64>,
    favs: Seq<FavoriteNode>,
    source_ticked: bool,
) -> FromFilterDecision {
    if trim(name).len() == 0 {
        FromFilterDecision::NameThePackage
    } else if stem.len() == 0 {
        FromFilterDecision::NoFileName
    } else if confirmed {
        FromFilterDecision::Create {
            source: if source_ticked {
                only_favorite
            } else {
                None
            },
        }
    } else {
        match read {
            None => FromFilterDecision::Read,
            Some((count, taken)) => if count == 0 {
                FromFilterDecision::NothingMatches
            } else if taken {
                FromFilterDecision::NameTaken
            } else {
                FromFilterDecision::Confirm { count, source_at: offered_source(only_favorite, favs) }
            },
        }
    }
}

/// The next step of making a package out of the filter.
pub fn package_from_filter_step(
    name: &str,
    stem: &str,
    confirmed: bool,
    read: Option<(u32, bool)>,
    only_favorite: Option<i64>,
    favorites: &[FavoriteNode],
    source_ticked: bool,
) -> (d: FromFilterDecision)
    ensures
        d == from_filter_of(name@, stem@, confirmed, read, only_favorite, favorites@, source_ticked),
{
    let trimmed = crate::text::trimmed(name);
    if chars_of(trimmed.as_str()).len() == 0 {
        return FromFilterDecision::NameThePackage;
    }
    if chars_of(stem).len() == 0 {
        return FromFilterDecision::NoFileName;
    }
    if confirmed {
        return FromFilterDecision::Create {
            source: if source_ticked {
                only_favorite
            } else {
                None
            },
        };
    }
    let (count, taken) = match read {
        None => {
            return FromFilterDecision::Read;
        },
        Some(r) => r,
    };
    if count == 0 {
        return FromFilterDecision::NothingMatches;
    }
    if taken {
        return FromFilterDecision::NameTaken;
    }
    let source_at = match only_favorite {
        None => None,
        Some(id) => match find_favorite(favorites, id) {
            Some(k) => if !favorites[k].temporary {
                Some(k)
            } else {
                None
            },
            None => None,
        },
    };
    FromFilterDecision::Confirm { count, source_at }
}

/// The bulk pages write nothing that was not confirmed: filing in a favorite, setting a language
/// and making a package from the filter each come to their write only on a confirmed request, and
/// an unconfirmed one is only ever read, refused or asked about.
pub proof fn law_bulk_writes_wait_for_confirmation(
    favorite_id: Option<i64>,
    removing: bool,
    language: Option<bool>,
    only_unset: bool,
    name: Seq<char>,
    stem: Seq<char>,
    confirmed: bool,
    whole_filter: bool,
    ticked: nat,
    count_read: Option<u32>,
    filter_read: Option<(u32, bool)>,
    only_favorite: Option<i64>,
    favs: Seq<FavoriteNode>,
    chips: nat,
    source_ticked: bool,
)
    ensures
        bulk_favorite_of(favorite_id, removing, false, whole_filter, ticked, count_read, favs, chips)
            !is Write,
        bulk_language_of(language, only_unset, false, whole_filter, ticked, count_read, chips) !is Write,
        from_filter_of(name, stem, false, filter_read, only_favorite, favs, source_ticked) !is Create,
        favorite_id is Some && confirmed ==> bulk_favorite_of(
            favorite_id,
            removing,
            confirmed,
            whole_filter,
            ticked,
            count_read,
            favs,
            chips,
        ) is Write,
{
}

/// A package made from the filter is sourced from a favorite only when the filter, at the moment of
/// the write, narrows by that one list alone and the source box was ticked: the box drawn on an
/// older page is not obeyed for a filter that has since changed.
pub proof fn law_a_package_is_sourced_only_from_the_filters_list(
    name: Seq<char>,
    stem: Seq<char>,
    confirmed: bool,
    read: Option<(u32, bool)>,
    only_favorite: Option<i64>,
    favs: Seq<FavoriteNode>,
    source_ticked: bool,
    id: i64,
)
    requires
        favs.len() <= usize::MAX,
    ensures
        from_filter_of(name, stem, confirmed, read, only_favorite, favs, source_ticked) == (
        FromFilterDecision::Create { source: Some(id) }) ==> only_favorite == Some(id) && source_ticked,
        from_filter_of(name, stem, confirmed, read, only_favorite, favs, source_ticked) matches
            FromFilterDecision::Confirm { source_at: Some(k), .. } ==> only_favorite is Some && k
            < favs.len() && favs[k as int].id == only_favorite->0 && !favs[k as int].temporary,
{
    if only_favorite is Some {
        lemma_favorite_at(favs, only_favorite->0);
    }
}

/// How many numbers a package starting at `start` has free below the highest a singer can dial:
/// none past the ceiling, and always at least one.
pub fn free_numbers(highest: u16, start: u32) -> (free: u32)
    ensures
        free == (if start >= highest { 0 } else { highest - start }) + 1,
{
    let h = highest as u32;
    if start >= h {
        1
    } else {
        h - start + 1
    }
}

/// The first number a package form asks for, read as a number, else 1, and held between 1 and the
/// highest a singer can dial.
pub open spec fn start_number_of(pairs: Seq<(Seq<char>, Seq<char>)>, highest: u16) -> u32 {
    let asked: int = match value_under(pairs, "start_number"@) {
        Some(v) => match u32_value(v) {
            Ok(n) => n as int,
            Err(_) => 1,
        },
        None => 1,
    };
    if asked < 1 {
        1
    } else if asked > highest {
        if highest < 1 { 1 } else { highest as u32 }
    } else {
        asked as u32
    }
}

/// A package form read into a row, with what was left blank defaulted: the name is the id, the
/// version `1.0.0`, a blank volume format `vol{n}`, the first number clamped into what a singer can
/// dial, and a default language kept only when it is a language code (`language_known`), none when
/// the form carries the key and leaves it empty or unknown, and `en` when the form does not ask.
pub fn package_row(form: &Fields, id: &str, highest: u16, language_known: bool) -> (row: PackageRow)
    requires
        highest >= 1,
    ensures
        row.id@ == id@,
        row.name@ == match value_under(form@, "name"@) {
            Some(n) => n,
            None => id@,
        },
        row.version@ == match value_under(form@, "version"@) {
            Some(v) => v,
            None => "1.0.0"@,
        },
        match (row.publisher, value_under(form@, "publisher"@)) {
            (Some(p), Some(q)) => p@ == q,
            (None, None) => true,
            _ => false,
        },
        row.volume_format@ == match value_under(form@, "volume_format"@) {
            Some(f) => if trim(f).len() > 0 {
                trim(f)
            } else {
                DEFAULT_VOLUME_FORMAT@
            },
            None => DEFAULT_VOLUME_FORMAT@,
        },
        row.start_number == start_number_of(form@, highest),
        match value_under(form@, "default_language"@) {
            Some(l) => match row.default_language {
                Some(d) => language_known && d@ == l,
                None => !language_known,
            },
            None => row.default_language matches Some(d) && d@ == "en"@,
        },
        row.out_path is None,
        row.built_at is None,
        row.song_count == 0,
        row.volume == 1,
        row.volume_id@ == id@,
        row.volumes == 1,
        row.total_songs == 0,
        !row.number_one_volume,
{
    let mut row = PackageRow::new(id, id);
    if let Some(n) = form.one("name") {
        row.name = crate::text::owned(n);
    }
    if let Some(v) = form.one("version") {
        row.version = crate::text::owned(v);
    }
    row.publisher = match form.one("publisher") {
        Some(p) => Some(crate::text::owned(p)),
        None => None,
    };
    if let Some(f) = form.one("volume_format") {
        let t = crate::text::trimmed(f);
        if chars_of(t.as_str()).len() > 0 {
            row.volume_format = t;
        }
    }
    let asked: u32 = match form.one("start_number") {
        Some(v) => match parse_u32(v) {
            Ok(n) => n,
            Err(_) => 1,
        },
        None => 1,
    };
    let h = highest as u32;
    row.start_number = if asked < 1 {
        1
    } else if asked > h {
        h
    } else {
        asked
    };
    match form.one("default_language") {
        Some(l) => {
            row.default_language = if language_known {
                Some(crate::text::owned(l))
            } else {
                None
            };
        },
        None => {},
    }
    row
}

// -- replacing one song of a package -------------------------------------------------------

/// Why a replace form is refused before anything is looked up.
#[derive(Debug, Clone, Copy, PartialEq, Eq, Structural)]
pub enum ReplaceAsk {
    /// The form names no package volume.
    ChooseAPackage,
    /// The song number is not a number.
    NotANumber,
}

/// What a replace form asks for: the package and volume its slot names, the number, and the song
/// to put there (nothing when the form names none).
pub open spec fn replace_request_of(pairs: Seq<(Seq<char>, Seq<char>)>) -> Result<(Seq<char>, u32, u32, Seq<char>), ReplaceAsk> {
    match value_under(pairs, "slot"@) {
        None => Err(ReplaceAsk::ChooseAPackage),
        Some(slot) => match slot_reading(slot) {
            None => Err(ReplaceAsk::ChooseAPackage),
            Some((package, volume)) => match value_under(pairs, "number"@) {
                None => Err(ReplaceAsk::NotANumber),
                Some(n) => match u32_value(n) {
                    Err(_) => Err(ReplaceAsk::NotANumber),
                    Ok(number) => Ok(
                        (
                            package,
                            volume,
                            number as u32,
                            match value_under(pairs, "song_id"@) {
                                Some(s) => s,
                                None => Seq::<char>::empty(),
                            },
                        ),
                    ),
                },
            },
        },
    }
}

/// Reads a replace form: the package, volume, number and song it asks for, or why not.
pub fn replace_request(fields: &Fields) -> (r: Result<(String, u32, u32, String), ReplaceAsk>)
    ensures
        match (r, replace_request_of(fields@)) {
            (Ok((p, v, n, s)), Ok((p2, v2, n2, s2))) => p@ == p2 && v == v2 && n == n2 && s@ == s2,
            (Err(a), Err(b)) => a == b,
            _ => false,
        },
{
    let slot = match fields.one("slot") {
        None => {
            return Err(ReplaceAsk::ChooseAPackage);
        },
        Some(s) => s,
    };
    let (package, volume) = match parse_replace_slot(slot) {
        None => {
            return Err(ReplaceAsk::ChooseAPackage);
        },
        Some(pv) => pv,
    };
    let n = match fields.one("number") {
        None => {
            return Err(ReplaceAsk::NotANumber);
        },
        Some(n) => n,
    };
    let number = match parse_u32(n) {
        Err(_) => {
            return Err(ReplaceAsk::NotANumber);
        },
        Ok(number) => number,
    };
    let song = match fields.one("song_id") {
        Some(s) => crate::text::owned(s),
        None => String::new(),
    };
    Ok((package, volume, number, song))
}

/// A song as a replacement names it: the title, and the artist after a dash when there is one.
pub open spec fn song_named(title: Seq<char>, artist: Option<Seq<char>>) -> Seq<char> {
    match artist {
        Some(a) => if a.len() > 0 {
            title + " \u{2014} "@ + a
        } else {
            title
        },
        None => title,
    }
}

/// A song as a replacement names it: `title — artist`, or the title alone.
pub fn named_song(title: &str, artist: Option<&str>) -> (out: String)
    ensures
        out@ == song_named(
            title@,
            match artist {
                Some(a) => Some(a@),
                None => None,
            },
        ),
{
    let mut v = chars_of(title);
    if let Some(a) = artist {
        if chars_of(a).len() > 0 {
            push_str(&mut v, " \u{2014} ");
            push_str(&mut v, a);
        }
    }
    string_of(v.as_slice())
}

/// Why the package refused a replacement.
#[derive(Debug, Clone, PartialEq, Eq)]
pub enum ReplaceRefusal {
    /// No song holds that number in the volume, which is named.
    Empty(String),
    /// The song asked for already holds the number.
    SameSong,
    /// The song asked for is already in the volume named, under the number given.
    AlreadyIn(String, u32),
    /// The song asked for has been merged into another.
    Merged,
}

/// What a replace answers when refused: the refusal, and the number the sentence names.
#[derive(Debug, Clone, Copy, PartialEq, Eq, Structural)]
pub enum ReplaceRefused {
    /// No song holds the number asked for.
    Empty,
    /// The song already holds the number asked for.
    SameSong,
    /// The song is already in the volume, under another number.
    AlreadyIn,
    /// The song was merged into another.
    Merged,
}

/// How a refusal is answered: which sentence, and the number it names (the one asked for, or the
/// one the song already holds).
pub fn replace_refused(refusal: &ReplaceRefusal, asked: u32) -> (a: (ReplaceRefused, u32))
    ensures
        a == match refusal {
            ReplaceRefusal::Empty(_) => (ReplaceRefused::Empty, asked),
            ReplaceRefusal::SameSong => (ReplaceRefused::SameSong, asked),
            ReplaceRefusal::AlreadyIn(_, held) => (ReplaceRefused::AlreadyIn, *held),
            ReplaceRefusal::Merged => (ReplaceRefused::Merged, asked),
        },
{
    match refusal {
        ReplaceRefusal::Empty(_) => (ReplaceRefused::Empty, asked),
        ReplaceRefusal::SameSong => (ReplaceRefused::SameSong, asked),
        ReplaceRefusal::AlreadyIn(_, held) => (ReplaceRefused::AlreadyIn, *held),
        ReplaceRefusal::Merged => (ReplaceRefused::Merged, asked),
    }
}

/// The favorites a replacement's song is in, joined with `, ` for the sentence naming them.
pub open spec fn joined_names(names: Seq<Seq<char>>) -> Seq<char> {
    crate::browse::joined(names, ", "@)
}

/// The favorites a replaced song is in, for the sentence that says it stays in them: how many and
/// their names joined, or nothing when it is in none.
pub fn favorites_said(names: &[String]) -> (said: Option<(usize, String)>)
    ensures
        match said {
            Some((count, joined)) => names@.len() > 0 && count == names@.len() && joined@ == joined_names(
                crate::browse::string_views(names@),
            ),
            None => names@.len() == 0,
        },
{
    if names.len() == 0 {
        return None;
    }
    let ghost vs = crate::browse::string_views(names@);
    let mut out = chars_of(names[0].as_str());
    proof {
        assert(vs.take(1).drop_last() =~= Seq::<Seq<char>>::empty());
        assert(vs.take(1).len() == 1);
    }
    let mut i: usize = 1;
    while i < names.len()
        invariant
            1 <= i <= names@.len(),
            vs == crate::browse::string_views(names@),
            out@ == joined_names(vs.take(i as int)),
        decreases names@.len() - i,
    {
        push_str(&mut out, ", ");
        push_str(&mut out, names[i].as_str());
        proof {
            assert(vs.take(i + 1).drop_last() =~= vs.take(i as int));
            assert(vs.take(i + 1).last() == names@[i as int]@);
        }
        i = i + 1;
    }
    proof {
        assert(vs.take(names@.len() as int) =~= vs);
    }
    Some((names.len(), string_of(out.as_slice())))
}

// -- restoring a backup --------------------------------------------------------------------

/// How a restore treats what the database already holds.
#[derive(Debug, Clone, Copy, PartialEq, Eq, Structural)]
pub enum RestorePolicy {
    /// The backup's values replace the ones held.
    Overwrite,
    /// The backup only fills what is blank.
    FillBlanks,
}

/// What a restore form asks for: the backup's path as typed, and how to treat what is held; or
/// nothing, when it names no backup.
pub open spec fn restore_request_of(pairs: Seq<(Seq<char>, Seq<char>)>) -> Option<(Seq<char>, RestorePolicy)> {
    match value_under(pairs, "path"@) {
        Some(path) => Some(
            (
                path,
                if value_under(pairs, "overwrite"@) is Some {
                    RestorePolicy::Overwrite
                } else {
                    RestorePolicy::FillBlanks
                },
            ),
        ),
        None => None,
    }
}

/// Reads a restore form: the path typed, taken against the backup folder by the caller, and whether
/// the backup overwrites. `None` when the form names no backup.
pub fn restore_request(fields: &Fields) -> (r: Option<(String, RestorePolicy)>)
    ensures
        match r {
            Some((path, policy)) => restore_request_of(fields@) == Some((path@, policy)),
            None => restore_request_of(fields@) is None,
        },
{
    let policy = if fields.has("overwrite") {
        RestorePolicy::Overwrite
    } else {
        RestorePolicy::FillBlanks
    };
    match fields.one("path") {
        Some(p) => Some((crate::text::owned(p), policy)),
        None => None,
    }
}

} // verus!
