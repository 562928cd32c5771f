//! The browse list's filter: how it arrives, what it narrows by, how the bar draws it, and how it
//! is written back into every link a page carries.
//!
//! The filter rides in query strings and form bodies alike, and the two cannot drift: a body is
//! read into the same [`FilterQuery`] a query string is, and every link is written by one function,
//! [`FilterQuery::rebuild`], so a filter that survives a page turn survives every other trip too.

use vstd::prelude::*;
use vstd::string::StringSliceAdditionalSpecFns;
use crate::text::{chars_of, string_of, push_all, push_str, str_eq, decimal, decimal_of, encode,
    encoded_bytes, owned, trim, trim_chars};
use crate::form::{pair_views, form_pairs, first_under, value_under, find_key, lemma_first_under,
    parse_u32, u32_value, number_error_text, decoded_pairs, form_text};
use crate::model::{SongKind, kind_filter, optional_string};
use crate::filter::{SuitabilityFilter, ScoreFilter, Initial, FavoritedFilter, CopiesFilter,
    AddedFilter, VersionsFilter, LanguageFilter, suitability_reading, score_reading,
    initial_reading, favorited_reading, copies_reading, added_reading, versions_reading,
    language_reading, tags_with, strictly_sorted, named_tags, tag_named, texts};

verus! {

broadcast use vstd::string::group_string_axioms;

/// How many rows a page of the browse table holds: about two screens, a batch of work somebody
/// finishes in a sitting.
pub const PAGE_SIZE: u32 = 50;

// -- reading the filter out of its pairs ---------------------------------------------------

/// Whether a key is one of the filter's own. Keys it does not know ride along in the same body and
/// are ignored, repeats and all.
pub open spec fn filter_key(k: Seq<char>) -> bool {
    ||| k == "q"@
    ||| k == "suitability"@
    ||| k == "user_score"@
    ||| k == "initial"@
    ||| k == "artist"@
    ||| k == "favorited"@
    ||| k == "favorite"@
    ||| k == "melody"@
    ||| k == "encoding_source"@
    ||| k == "granularity"@
    ||| k == "kind"@
    ||| k == "language"@
    ||| k == "tags"@
    ||| k == "add_tag"@
    ||| k == "copies"@
    ||| k == "added"@
    ||| k == "versions"@
    ||| k == "unpackaged"@
    ||| k == "filename"@
    ||| k == "sort"@
    ||| k == "offset"@
    ||| k == "total"@
}

/// Whether a key holds a number.
pub open spec fn number_key(k: Seq<char>) -> bool {
    k == "offset"@ || k == "total"@
}

/// What is wrong with the pair at `j`, if anything: a filter key that has already been given, or a
/// number that does not read.
pub open spec fn pair_problem(ps: Seq<(Seq<char>, Seq<char>)>, j: int) -> Option<Seq<char>> {
    let k = ps[j].0;
    if !filter_key(k) {
        None
    } else if first_under(ps, k) < j {
        Some("duplicate field `"@ + k + "`"@)
    } else if number_key(k) {
        match u32_value(ps[j].1) {
            Ok(_) => None,
            Err(e) => Some(number_error_text(e)),
        }
    } else {
        None
    }
}

/// The first problem among the pairs from `from` on.
pub open spec fn first_problem(ps: Seq<(Seq<char>, Seq<char>)>, from: int) -> Option<Seq<char>>
    decreases ps.len() - from,
{
    if from < 0 || from >= ps.len() {
        None
    } else {
        match pair_problem(ps, from) {
            Some(m) => Some(m),
            None => first_problem(ps, from + 1),
        }
    }
}

/// The value a text field takes from the pairs: its first value, or nothing.
pub open spec fn text_field(ps: Seq<(Seq<char>, Seq<char>)>, k: Seq<char>) -> Seq<char> {
    match value_under(ps, k) {
        Some(v) => v,
        None => seq![],
    }
}

/// The value a number field takes from the pairs.
pub open spec fn number_field(ps: Seq<(Seq<char>, Seq<char>)>, k: Seq<char>) -> Option<u32> {
    match value_under(ps, k) {
        Some(v) => match u32_value(v) {
            Ok(n) => Some(n as u32),
            Err(_) => None,
        },
        None => None,
    }
}

/// The filter as it arrives from a query string or a form body. Every field is a value exactly as
/// it was sent; what it narrows by is read from it when asked.
#[derive(Debug)]
pub struct FilterQuery {
    /// Words to look for anywhere.
    pub q: String,
    /// Which band of the automatic suitability: `8-10` · `5-7` · `0-4`, or empty for any.
    pub suitability: String,
    /// The hand-set score: `set`, `unset`, a least score, or empty for any.
    pub user_score: String,
    /// What a title starts with.
    pub initial: String,
    /// Exactly this artist. A row's own artist box is `row_artist`, so the two never collide.
    pub artist: String,
    /// Whether a song has to be filed: `in` · `out`, or empty for either.
    pub favorited: String,
    /// One favorite list, by id.
    pub favorite: String,
    /// `yes` or `no`: whether a melody was found.
    pub melody: String,
    /// How the lyrics' encoding was arrived at.
    pub encoding_source: String,
    /// How finely the lyrics are timed.
    pub granularity: String,
    /// `midi`, `video`, or empty for both.
    pub kind: String,
    /// An ISO 639-1 code, or `unset` / `set`, or empty for any.
    pub language: String,
    /// The tags being narrowed by, comma-joined: one scalar and never a repeated key.
    pub tags: String,
    /// A tag being added to that set, from the bar's picker.
    pub add_tag: String,
    /// How many copies on disk: `1` · `2-10` · `10+`, or empty for any.
    pub copies: String,
    /// How long ago the song was added: `1d` · `7d` · `30d` · `30d+`, or empty for any.
    pub added: String,
    /// `all` to show every version of a recording.
    pub versions: String,
    /// Present when only songs in no package are wanted.
    pub unpackaged: Option<String>,
    /// Not a filter: present when each row shows the name of its file.
    pub filename: Option<String>,
    /// How the list is ordered.
    pub sort: String,
    /// Which row the page starts at.
    pub offset: Option<u32>,
    /// How many songs this filter matched, carried back by the page it was counted on. Never
    /// trusted to decide what is on a page.
    pub total: Option<u32>,
}

impl Default for FilterQuery {
    fn default() -> (f: FilterQuery)
        ensures
            f.reads_from(Seq::<(Seq<char>, Seq<char>)>::empty()),
    {
        let f = FilterQuery {
            q: String::new(),
            suitability: String::new(),
            user_score: String::new(),
            initial: String::new(),
            artist: String::new(),
            favorited: String::new(),
            favorite: String::new(),
            melody: String::new(),
            encoding_source: String::new(),
            granularity: String::new(),
            kind: String::new(),
            language: String::new(),
            tags: String::new(),
            add_tag: String::new(),
            copies: String::new(),
            added: String::new(),
            versions: String::new(),
            unpackaged: None,
            filename: None,
            sort: String::new(),
            offset: None,
            total: None,
        };
        proof {
            let e = Seq::<(Seq<char>, Seq<char>)>::empty();
            assert forall|k: Seq<char>| first_under(e, k) == -1 by {}
        }
        f
    }
}

/// The first value under `key`, copied out, or nothing.
fn text_under(pairs: &Vec<(String, String)>, key: &str) -> (v: String)
    ensures
        v@ == text_field(pair_views(pairs@), key@),
{
    match find_key(pairs, key) {
        Some(k) => {
            proof {
                assert(pair_views(pairs@)[k as int] == (pairs@[k as int].0@, pairs@[k as int].1@));
            }
            pairs[k].1.clone()
        },
        None => String::new(),
    }
}

/// The first value under `key`, copied out, if there is one.
fn option_under(pairs: &Vec<(String, String)>, key: &str) -> (v: Option<String>)
    ensures
        optional_string(v) == value_under(pair_views(pairs@), key@),
{
    match find_key(pairs, key) {
        Some(k) => {
            proof {
                assert(pair_views(pairs@)[k as int] == (pairs@[k as int].0@, pairs@[k as int].1@));
            }
            Some(pairs[k].1.clone())
        },
        None => None,
    }
}

/// The first value under `key` read as a number, if there is one and it reads.
fn number_under(pairs: &Vec<(String, String)>, key: &str) -> (v: Option<u32>)
    ensures
        v == number_field(pair_views(pairs@), key@),
{
    match find_key(pairs, key) {
        Some(k) => {
            proof {
                assert(pair_views(pairs@)[k as int] == (pairs@[k as int].0@, pairs@[k as int].1@));
            }
            match parse_u32(pairs[k].1.as_str()) {
                Ok(n) => Some(n),
                Err(_) => None,
            }
        },
        None => None,
    }
}

/// Whether a key is one of the filter's own.
fn is_filter_key(k: &str) -> (b: bool)
    ensures
        b == filter_key(k@),
{
    str_eq(k, "q") || str_eq(k, "suitability") || str_eq(k, "user_score") || str_eq(k, "initial")
        || str_eq(k, "artist") || str_eq(k, "favorited") || str_eq(k, "favorite") || str_eq(
        k,
        "melody",
    ) || str_eq(k, "encoding_source") || str_eq(k, "granularity") || str_eq(k, "kind") || str_eq(
        k,
        "language",
    ) || str_eq(k, "tags") || str_eq(k, "add_tag") || str_eq(k, "copies") || str_eq(k, "added")
        || str_eq(k, "versions") || str_eq(k, "unpackaged") || str_eq(k, "filename") || str_eq(
        k,
        "sort",
    ) || str_eq(k, "offset") || str_eq(k, "total")
}

/// The problem with the pair at `j`, if any, found by looking.
fn problem_at(pairs: &Vec<(String, String)>, j: usize) -> (m: Option<String>)
    requires
        j < pairs@.len(),
    ensures
        optional_string(m) == pair_problem(pair_views(pairs@), j as int),
{
    let ghost ps = pair_views(pairs@);
    let key = pairs[j].0.as_str();
    proof {
        assert(ps[j as int] == (pairs@[j as int].0@, pairs@[j as int].1@));
        lemma_first_under(ps, key@);
    }
    if !is_filter_key(key) {
        return None;
    }
    match find_key(pairs, key) {
        Some(first) => {
            if first < j {
                let mut out = chars_of("duplicate field `");
                push_str(&mut out, key);
                push_str(&mut out, "`");
                return Some(string_of(out.as_slice()));
            }
        },
        None => {
            proof {
                assert(ps[j as int].0 == key@);
            }
        },
    }
    if str_eq(key, "offset") || str_eq(key, "total") {
        match parse_u32(pairs[j].1.as_str()) {
            Ok(_) => None,
            Err(e) => Some(owned(e.message())),
        }
    } else {
        None
    }
}

/// What reading the filter out of these pairs gives: the filter they describe when nothing is
/// wrong with them, else the first problem, worded.
pub open spec fn read_as(ps: Seq<(Seq<char>, Seq<char>)>, r: Result<FilterQuery, String>) -> bool {
    match r {
        Ok(f) => first_problem(ps, 0) is None && f.reads_from(ps),
        Err(m) => match first_problem(ps, 0) {
            Some(p) => m@ == "could not read the filter from the form: "@ + p,
            None => false,
        },
    }
}

impl FilterQuery {
    /// Whether this filter is what the pairs say: every field its key's first value, or nothing
    /// (or `None`) when the pairs do not carry it.
    pub open spec fn reads_from(&self, ps: Seq<(Seq<char>, Seq<char>)>) -> bool {
        &&& self.q@ == text_field(ps, "q"@)
        &&& self.suitability@ == text_field(ps, "suitability"@)
        &&& self.user_score@ == text_field(ps, "user_score"@)
        &&& self.initial@ == text_field(ps, "initial"@)
        &&& self.artist@ == text_field(ps, "artist"@)
        &&& self.favorited@ == text_field(ps, "favorited"@)
        &&& self.favorite@ == text_field(ps, "favorite"@)
        &&& self.melody@ == text_field(ps, "melody"@)
        &&& self.encoding_source@ == text_field(ps, "encoding_source"@)
        &&& self.granularity@ == text_field(ps, "granularity"@)
        &&& self.kind@ == text_field(ps, "kind"@)
        &&& self.language@ == text_field(ps, "language"@)
        &&& self.tags@ == text_field(ps, "tags"@)
        &&& self.add_tag@ == text_field(ps, "add_tag"@)
        &&& self.copies@ == text_field(ps, "copies"@)
        &&& self.added@ == text_field(ps, "added"@)
        &&& self.versions@ == text_field(ps, "versions"@)
        &&& optional_string(self.unpackaged) == value_under(ps, "unpackaged"@)
        &&& optional_string(self.filename) == value_under(ps, "filename"@)
        &&& self.sort@ == text_field(ps, "sort"@)
        &&& self.offset == number_field(ps, "offset"@)
        &&& self.total == number_field(ps, "total"@)
    }

    /// The filter the decoded pairs of a body make.
    ///
    /// A key this struct does not know is ignored however many times it comes. One it does know is
    /// refused the second time, and so is a number that does not read, because an unreadable filter
    /// is not an empty one and an empty one here is the whole corpus.
    pub fn from_pairs(pairs: &Vec<(String, String)>) -> (r: Result<FilterQuery, String>)
        ensures
            read_as(pair_views(pairs@), r),
    {
        let ghost ps = pair_views(pairs@);
        let mut j: usize = 0;
        while j < pairs.len()
            invariant
                j <= pairs@.len(),
                ps == pair_views(pairs@),
                first_problem(ps, 0) == first_problem(ps, j as int),
            decreases pairs@.len() - j,
        {
            match problem_at(pairs, j) {
                Some(m) => {
                    let mut out = chars_of("could not read the filter from the form: ");
                    proof {
                        reveal_strlit("could not read the filter from the form: ");
                    }
                    push_str(&mut out, m.as_str());
                    return Err(string_of(out.as_slice()));
                },
                None => {},
            }
            j = j + 1;
        }
        proof {
            assert(first_problem(ps, j as int) is None);
        }
        Ok(
            FilterQuery {
                q: text_under(pairs, "q"),
                suitability: text_under(pairs, "suitability"),
                user_score: text_under(pairs, "user_score"),
                initial: text_under(pairs, "initial"),
                artist: text_under(pairs, "artist"),
                favorited: text_under(pairs, "favorited"),
                favorite: text_under(pairs, "favorite"),
                melody: text_under(pairs, "melody"),
                encoding_source: text_under(pairs, "encoding_source"),
                granularity: text_under(pairs, "granularity"),
                kind: text_under(pairs, "kind"),
                language: text_under(pairs, "language"),
                tags: text_under(pairs, "tags"),
                add_tag: text_under(pairs, "add_tag"),
                copies: text_under(pairs, "copies"),
                added: text_under(pairs, "added"),
                versions: text_under(pairs, "versions"),
                unpackaged: option_under(pairs, "unpackaged"),
                filename: option_under(pairs, "filename"),
                sort: text_under(pairs, "sort"),
                offset: number_under(pairs, "offset"),
                total: number_under(pairs, "total"),
            },
        )
    }

    /// The filter as the bar is set right now, read out of a form body.
    ///
    /// The same reading a query string gets, so the two cannot drift. Deliberately fallible, with
    /// nothing to fall back to: an unreadable filter is not an empty one.
    ///
    /// A link this filter's own code wrote reads back as the filter it was written from: read
    /// again, it writes the same link, less the one filter the link dropped. A link that drops
    /// nothing reads back as a filter that draws the same bar ([`FilterQuery::to_form`]), whenever
    /// the artist is already trimmed, since the link carries it trimmed.
    pub fn from_body(body: &str) -> (r: Result<FilterQuery, String>)
        ensures
            match form_pairs(body@) {
                Some(ps) => read_as(ps, r),
                None => r is Err,
            },
            forall|f: FilterQuery, dropped: Seq<char>, offset: u32, total: Option<u32>|
                #![trigger joined(f.filter_parts(dropped) + paging_parts(offset, total), "&"@)]
                body@ == joined(f.filter_parts(dropped) + paging_parts(offset, total), "&"@)
                    ==> (r matches Ok(g) && g.filter_parts(""@) == f.filter_parts(dropped)),
            forall|f: FilterQuery, offset: u32, total: Option<u32>|
                #![trigger joined(f.filter_parts(""@) + paging_parts(offset, total), "&"@)]
                body@ == joined(f.filter_parts(""@) + paging_parts(offset, total), "&"@)
                    && trim(f.artist@) == f.artist@
                    ==> (r matches Ok(g) && crate::round_trip::same_form(g, f)),
    {
        let decoded = decoded_pairs(body);
        let r = match decoded {
            Ok(pairs) => FilterQuery::from_pairs(&pairs),
            Err(e) => {
                let mut out = chars_of("could not read the filter from the form: ");
                push_str(&mut out, e.as_str());
                Err(string_of(out.as_slice()))
            },
        };
        proof {
            assert forall|f: FilterQuery, dropped: Seq<char>, offset: u32, total: Option<u32>|
                body@ == joined(f.filter_parts(dropped) + paging_parts(offset, total), "&"@)
                    implies (r matches Ok(g) && g.filter_parts(""@) == f.filter_parts(dropped)) by {
                crate::round_trip::lemma_a_link_is_its_pairs(f, dropped, offset, total);
                let ps = f.link_pairs(dropped, offset, total);
                assert(form_text(ps) == body@);
                assert(decoded matches Ok(p) && pair_views(p@) == ps);
                match r {
                    Ok(g) => {
                        crate::round_trip::lemma_a_link_reads_back(f, dropped, offset, total, g);
                    },
                    Err(_) => {},
                }
            }
            assert forall|f: FilterQuery, offset: u32, total: Option<u32>|
                body@ == joined(f.filter_parts(""@) + paging_parts(offset, total), "&"@)
                    && trim(f.artist@) == f.artist@
                    implies (r matches Ok(g) && crate::round_trip::same_form(g, f)) by {
                crate::round_trip::lemma_a_link_is_its_pairs(f, ""@, offset, total);
                let ps = f.link_pairs(""@, offset, total);
                assert(form_text(ps) == body@);
                assert(decoded matches Ok(p) && pair_views(p@) == ps);
                match r {
                    Ok(g) => {
                        crate::round_trip::lemma_a_link_reads_back_as_the_same_form(f, offset, total, g);
                    },
                    Err(_) => {},
                }
            }
        }
        r
    }
}


// -- what the filter narrows by ------------------------------------------------------------

/// The tags a filter narrows by: the list it carries, with the one being added merged in.
pub open spec fn chosen_set(tags: Seq<char>, add_tag: Seq<char>) -> Set<Seq<char>> {
    match tag_named(add_tag) {
        Some(t) => named_tags(tags).insert(t),
        None => named_tags(tags),
    }
}

/// The views of a list of texts.
pub open spec fn string_views(v: Seq<String>) -> Seq<Seq<char>> {
    v.map_values(|s: String| s@)
}

/// A text when it has something in it besides white space, else nothing.
pub open spec fn when_said(s: Seq<char>) -> Option<Seq<char>> {
    if trim(s).len() > 0 {
        Some(s)
    } else {
        None
    }
}

/// A text when it is not empty, else nothing.
pub open spec fn when_given(s: Seq<char>) -> Option<Seq<char>> {
    if s.len() > 0 {
        Some(s)
    } else {
        None
    }
}

/// `yes` and `no` for whether a melody was found, and anything else for either.
pub open spec fn melody_reading(s: Seq<char>) -> Option<bool> {
    if s == "yes"@ {
        Some(true)
    } else if s == "no"@ {
        Some(false)
    } else {
        None
    }
}

/// What one page of the browse list asks the database for.
#[derive(Debug)]
pub struct Filter {
    /// Words to look for anywhere.
    pub query: Option<String>,
    /// The suitability band.
    pub suitability: SuitabilityFilter,
    /// The hand-set score.
    pub user_score: ScoreFilter,
    /// What a title starts with.
    pub initial: Initial,
    /// Exactly this artist, trimmed.
    pub artist: Option<String>,
    /// Filed or not.
    pub favorited: FavoritedFilter,
    /// One favorite list, by id.
    pub favorite: Option<i64>,
    /// Whether a melody was found.
    pub melody: Option<bool>,
    /// How the lyrics' encoding was arrived at.
    pub encoding_source: Option<String>,
    /// How many copies on disk.
    pub copies: CopiesFilter,
    /// How long ago the song was added.
    pub added: AddedFilter,
    /// Every version, or one per recording.
    pub versions: VersionsFilter,
    /// Only songs in no package.
    pub unpackaged: bool,
    /// Only songs in this package.
    pub in_package: Option<String>,
    /// How finely the lyrics are timed.
    pub granularity: Option<String>,
    /// Which kind of file.
    pub kind: Option<SongKind>,
    /// Which language.
    pub language: LanguageFilter,
    /// Every one of these tags.
    pub tags: Vec<String>,
    /// How the list is ordered, as it was sent.
    pub sort: String,
    /// How many rows a page holds.
    pub limit: u32,
    /// Which row the page starts at.
    pub offset: u32,
}

/// The bar as a page draws it: every value through its reading and back, so a nonsense value in a
/// hand-typed address shows as *any* rather than leaving a select with nothing chosen.
#[derive(Debug, PartialEq)]
pub struct FilterForm {
    /// The languages the corpus holds, which every language picker offers.
    pub present: Vec<String>,
    /// The tags being narrowed by.
    pub tags: Vec<String>,
    /// The tags the picker offers.
    pub known_tags: Vec<String>,
    /// Tags suggested rather than held; none until the page marks some.
    pub suggested_tags: Vec<String>,
    /// Words to look for.
    pub q: String,
    /// Exactly this artist.
    pub artist: String,
    /// The suitability band.
    pub suitability: String,
    /// The hand-set score.
    pub user_score: String,
    /// What a title starts with.
    pub initial: String,
    /// Filed or not.
    pub favorited: String,
    /// One favorite list.
    pub favorite: String,
    /// Whether a melody was found.
    pub melody: String,
    /// How the encoding was arrived at.
    pub encoding_source: String,
    /// How finely the lyrics are timed.
    pub granularity: String,
    /// Which kind of file.
    pub kind: String,
    /// Which language.
    pub language: String,
    /// How many copies.
    pub copies: String,
    /// How long ago added.
    pub added: String,
    /// Every version, or one per recording.
    pub versions: String,
    /// Only songs in no package.
    pub unpackaged: bool,
    /// Whether each row shows its file's name.
    pub filename: bool,
    /// How the list is ordered.
    pub sort: String,
}

/// A copy of a list of texts.
fn copy_texts(v: &[String]) -> (out: Vec<String>)
    ensures
        string_views(out@) == string_views(v@),
{
    let mut out: Vec<String> = Vec::new();
    let mut i: usize = 0;
    while i < v.len()
        invariant
            i <= v@.len(),
            string_views(out@) == string_views(v@).take(i as int),
        decreases v@.len() - i,
    {
        let ghost before = string_views(out@);
        out.push(v[i].clone());
        proof {
            assert(string_views(out@) =~= before.push(v@[i as int]@));
            assert(string_views(v@).take(i + 1) =~= string_views(v@).take(i as int).push(v@[i as int]@));
        }
        i = i + 1;
    }
    proof {
        assert(string_views(v@).take(v@.len() as int) =~= string_views(v@));
    }
    out
}

/// A copy of a text when it has something in it besides white space.
fn said(s: &String) -> (out: Option<String>)
    ensures
        optional_string(out) == when_said(s@),
{
    let v = chars_of(s.as_str());
    let t = trim_chars(v.as_slice());
    if t.len() > 0 {
        Some(s.clone())
    } else {
        None
    }
}

/// A copy of a text when it is not empty.
fn given(s: &String) -> (out: Option<String>)
    ensures
        optional_string(out) == when_given(s@),
{
    let v = chars_of(s.as_str());
    if v.len() > 0 {
        Some(s.clone())
    } else {
        None
    }
}

impl FilterQuery {
    /// Which band of the automatic suitability a song has to be in. A band, and nothing folding
    /// onto it.
    pub fn suitability(&self) -> (f: SuitabilityFilter)
        ensures
            f == suitability_reading(self.suitability@),
    {
        SuitabilityFilter::parse(self.suitability.as_str())
    }

    /// Whether each row shows the name of its file beside its title: off unless the box says
    /// otherwise, which an absent key is.
    pub fn filenames(&self) -> (b: bool)
        ensures
            b == (self.filename is Some),
    {
        self.filename.is_some()
    }

    /// The tags being narrowed by, with `add_tag` merged in: folded, sorted, each once.
    pub fn chosen_tags(&self) -> (tags: Vec<String>)
        ensures
            strictly_sorted(string_views(tags@)),
            string_views(tags@).to_set() == chosen_set(self.tags@, self.add_tag@),
    {
        tags_with(self.tags.as_str(), self.add_tag.as_str())
    }

    /// What one page of the list asks the database for.
    pub fn to_filter(&self) -> (f: Filter)
        ensures
            optional_string(f.query) == when_said(self.q@),
            f.suitability == suitability_reading(self.suitability@),
            f.user_score == score_reading(self.user_score@),
            f.initial == initial_reading(self.initial@),
            optional_string(f.artist) == (if trim(self.artist@).len() > 0 {
                Some(trim(self.artist@))
            } else {
                None
            }),
            f.favorited == favorited_reading(self.favorited@),
            match f.favorite {
                Some(n) => crate::form::i64_value(self.favorite@) == Some(n as int),
                None => crate::form::i64_value(self.favorite@) is None,
            },
            f.melody == melody_reading(self.melody@),
            optional_string(f.encoding_source) == when_given(self.encoding_source@),
            f.copies == copies_reading(self.copies@),
            f.added == added_reading(self.added@),
            f.versions == versions_reading(self.versions@),
            f.unpackaged == (self.unpackaged is Some),
            f.in_package is None,
            optional_string(f.granularity) == when_given(self.granularity@),
            f.kind == kind_filter(self.kind@),
            f.language == language_reading(self.language@),
            strictly_sorted(string_views(f.tags@)),
            string_views(f.tags@).to_set() == chosen_set(self.tags@, self.add_tag@),
            f.sort@ == self.sort@,
            f.limit == PAGE_SIZE,
            f.offset == match self.offset {
                Some(n) => n,
                None => 0,
            },
    {
        let artist = {
            let v = chars_of(self.artist.as_str());
            let t = trim_chars(v.as_slice());
            if t.len() > 0 {
                Some(string_of(t.as_slice()))
            } else {
                None
            }
        };
        let melody = if str_eq(self.melody.as_str(), "yes") {
            Some(true)
        } else if str_eq(self.melody.as_str(), "no") {
            Some(false)
        } else {
            None
        };
        Filter {
            query: said(&self.q),
            suitability: self.suitability(),
            user_score: ScoreFilter::parse(self.user_score.as_str()),
            initial: Initial::parse(self.initial.as_str()),
            artist,
            favorited: FavoritedFilter::parse(self.favorited.as_str()),
            favorite: crate::form::parse_i64(self.favorite.as_str()),
            melody,
            encoding_source: given(&self.encoding_source),
            copies: CopiesFilter::parse(self.copies.as_str()),
            added: AddedFilter::parse(self.added.as_str()),
            versions: VersionsFilter::parse(self.versions.as_str()),
            unpackaged: self.unpackaged.is_some(),
            in_package: None,
            granularity: given(&self.granularity),
            kind: SongKind::filter(self.kind.as_str()),
            language: LanguageFilter::parse(self.language.as_str()),
            tags: self.chosen_tags(),
            sort: self.sort.clone(),
            limit: PAGE_SIZE,
            offset: match self.offset {
                Some(n) => n,
                None => 0,
            },
        }
    }

    /// The bar as the page should draw it. `present` is the languages the corpus holds and
    /// `known_tags` the tags the picker offers; both are looked up by the caller, which has a
    /// database to ask.
    pub fn to_form(&self, present: &[String], known_tags: &[String]) -> (form: FilterForm)
        ensures
            string_views(form.present@) == string_views(present@),
            strictly_sorted(string_views(form.tags@)),
            string_views(form.tags@).to_set() == chosen_set(self.tags@, self.add_tag@),
            string_views(form.known_tags@) == string_views(known_tags@),
            form.suggested_tags@.len() == 0,
            form.q@ == self.q@,
            form.artist@ == self.artist@,
            form.suitability@ == crate::filter::suitability_spelling(suitability_reading(self.suitability@)),
            form.user_score@ == crate::filter::score_spelling(score_reading(self.user_score@)),
            form.initial@ == crate::filter::initial_spelling(initial_reading(self.initial@)),
            form.favorited@ == crate::filter::favorited_spelling(favorited_reading(self.favorited@)),
            form.favorite@ == self.favorite@,
            form.melody@ == self.melody@,
            form.encoding_source@ == self.encoding_source@,
            form.granularity@ == self.granularity@,
            form.kind@ == self.kind@,
            form.language@ == crate::filter::language_spelling(language_reading(self.language@)),
            form.copies@ == crate::filter::copies_spelling(copies_reading(self.copies@)),
            form.added@ == crate::filter::added_spelling(added_reading(self.added@)),
            form.versions@ == crate::filter::versions_spelling(versions_reading(self.versions@)),
            form.unpackaged == (self.unpackaged is Some),
            form.filename == (self.filename is Some),
            form.sort@ == self.sort@,
    {
        FilterForm {
            present: copy_texts(present),
            tags: self.chosen_tags(),
            known_tags: copy_texts(known_tags),
            suggested_tags: Vec::new(),
            q: self.q.clone(),
            artist: self.artist.clone(),
            suitability: owned(self.suitability().as_str()),
            user_score: ScoreFilter::parse(self.user_score.as_str()).as_str(),
            initial: Initial::parse(self.initial.as_str()).as_str(),
            favorited: owned(FavoritedFilter::parse(self.favorited.as_str()).as_str()),
            favorite: self.favorite.clone(),
            melody: self.melody.clone(),
            encoding_source: self.encoding_source.clone(),
            granularity: self.granularity.clone(),
            kind: self.kind.clone(),
            language: LanguageFilter::parse(self.language.as_str()).as_str(),
            copies: owned(CopiesFilter::parse(self.copies.as_str()).as_str()),
            added: owned(AddedFilter::parse(self.added.as_str()).as_str()),
            versions: owned(VersionsFilter::parse(self.versions.as_str()).as_str()),
            unpackaged: self.unpackaged.is_some(),
            filename: self.filenames(),
            sort: self.sort.clone(),
        }
    }
}


// -- writing the filter back out -----------------------------------------------------------

/// Texts joined with a separator between each two.
pub open spec fn joined(parts: Seq<Seq<char>>, sep: Seq<char>) -> Seq<char>
    decreases parts.len(),
{
    if parts.len() == 0 {
        seq![]
    } else if parts.len() == 1 {
        parts[0]
    } else {
        joined(parts.drop_last(), sep) + sep + parts.last()
    }
}

/// A value as it is written into a query string: its UTF-8 bytes, form-encoded.
pub open spec fn url_value(v: Seq<char>) -> Seq<char> {
    encoded_bytes(vstd::utf8::encode_utf8(v))
}

/// The `key=value` a non-empty value writes, unless its key is the one being dropped.
pub open spec fn pair_part(key: Seq<char>, value: Seq<char>, dropped: Seq<char>) -> Seq<Seq<char>> {
    if value.len() > 0 && key != dropped {
        seq![key + "="@ + url_value(value)]
    } else {
        seq![]
    }
}

/// A constant part, written unless its key is the one being dropped.
pub open spec fn flag_part(on: bool, key: Seq<char>, dropped: Seq<char>) -> Seq<Seq<char>> {
    if on && key != dropped {
        seq![key + "=1"@]
    } else {
        seq![]
    }
}

/// The one tag a `tag:<slug>` key names, which is how a chip takes off exactly one tag.
pub open spec fn one_tag_dropped(dropped: Seq<char>) -> Option<Seq<char>> {
    if dropped.len() >= 4 && dropped.take(4) == "tag:"@ {
        Some(dropped.skip(4))
    } else {
        None
    }
}

/// The strictly sorted list holding exactly these tags.
pub open spec fn sorted_list(tags: Set<Seq<char>>) -> Seq<Seq<char>> {
    choose|s: Seq<Seq<char>>| strictly_sorted(s) && s.to_set() == tags
}

/// The tags of a list other than `one`, in order.
pub open spec fn without_tag(tags: Seq<Seq<char>>, one: Option<Seq<char>>) -> Seq<Seq<char>>
    decreases tags.len(),
{
    if tags.len() == 0 {
        seq![]
    } else {
        let rest = without_tag(tags.drop_last(), one);
        if one == Some(tags.last()) {
            rest
        } else {
            rest.push(tags.last())
        }
    }
}

/// The parts paging adds: where the page starts, when not at the top, and the count carried
/// forward, when there is one.
pub open spec fn paging_parts(offset: u32, total: Option<u32>) -> Seq<Seq<char>> {
    (if offset > 0 {
        seq!["offset="@ + decimal(offset as nat)]
    } else {
        seq![]
    }) + match total {
        Some(t) => seq!["total="@ + decimal(t as nat)],
        None => seq![],
    }
}

fn push_pair(parts: &mut Vec<Vec<char>>, key: &str, value: &str, dropped: &str)
    ensures
        texts(final(parts)@) == texts(old(parts)@) + pair_part(key@, value@, dropped@),
{
    let ghost before = texts(parts@);
    let v = chars_of(value);
    if v.len() > 0 && !str_eq(key, dropped) {
        let mut part = chars_of(key);
        part.push('=');
        let e = encode(value);
        push_str(&mut part, e.as_str());
        parts.push(part);
        proof {
            reveal_strlit("=");
            assert(part@ =~= key@ + "="@ + url_value(value@));
            assert(texts(parts@) =~= before.push(part@));
        }
    } else {
        proof {
            assert(texts(parts@) =~= before + Seq::<Seq<char>>::empty());
        }
    }
}

fn push_flag(parts: &mut Vec<Vec<char>>, on: bool, key: &str, dropped: &str)
    ensures
        texts(final(parts)@) == texts(old(parts)@) + flag_part(on, key@, dropped@),
{
    let ghost before = texts(parts@);
    if on && !str_eq(key, dropped) {
        let mut part = chars_of(key);
        push_str(&mut part, "=1");
        parts.push(part);
        proof {
            assert(texts(parts@) =~= before.push(part@));
        }
    } else {
        proof {
            assert(texts(parts@) =~= before + Seq::<Seq<char>>::empty());
        }
    }
}

/// Texts joined with one separator character.
pub(crate) fn join_texts(parts: &Vec<Vec<char>>, sep: char) -> (out: Vec<char>)
    ensures
        out@ == joined(texts(parts@), seq![sep]),
{
    let ghost ps = texts(parts@);
    let mut out: Vec<char> = Vec::new();
    let mut i: usize = 0;
    while i < parts.len()
        invariant
            i <= parts@.len(),
            ps == texts(parts@),
            out@ == joined(ps.take(i as int), seq![sep]),
        decreases parts@.len() - i,
    {
        proof {
            assert(ps.take(i + 1).drop_last() =~= ps.take(i as int));
            assert(ps.take(i + 1).last() == parts@[i as int]@);
        }
        if i > 0 {
            out.push(sep);
        }
        push_all(&mut out, parts[i].as_slice());
        proof {
            if i == 0 {
                assert(ps.take(1).len() == 1);
                assert(out@ =~= ps.take(1)[0]);
            } else {
                assert(out@ =~= joined(ps.take(i as int), seq![sep]) + seq![sep] + parts@[i as int]@);
            }
        }
        i = i + 1;
    }
    proof {
        assert(ps.take(parts@.len() as int) =~= ps);
    }
    out
}

/// A strictly sorted list is the one [`sorted_list`] names for what it holds.
pub(crate) proof fn lemma_sorted_list_is(s: Seq<Seq<char>>)
    requires
        strictly_sorted(s),
    ensures
        sorted_list(s.to_set()) == s,
{
    let t = sorted_list(s.to_set());
    assert(strictly_sorted(t) && t.to_set() == s.to_set());
    crate::filter::law_a_sorted_tag_list_is_fixed_by_its_tags(t, s);
}

impl FilterQuery {
    /// The parts every link written for this filter carries, with one filter dropped.
    pub open spec fn filter_parts(&self, dropped: Seq<char>) -> Seq<Seq<char>> {
        let kept = without_tag(
            sorted_list(chosen_set(self.tags@, self.add_tag@)),
            one_tag_dropped(dropped),
        );
        pair_part("q"@, self.q@, dropped)
            + pair_part("suitability"@, crate::filter::suitability_spelling(suitability_reading(self.suitability@)), dropped)
            + pair_part("user_score"@, self.user_score@, dropped)
            + pair_part("initial"@, crate::filter::initial_spelling(initial_reading(self.initial@)), dropped)
            + pair_part("artist"@, trim(self.artist@), dropped)
            + pair_part("favorite"@, self.favorite@, dropped)
            + pair_part("melody"@, self.melody@, dropped)
            + pair_part("encoding_source"@, self.encoding_source@, dropped)
            + pair_part("granularity"@, self.granularity@, dropped)
            + pair_part("kind"@, self.kind@, dropped)
            + pair_part("language"@, self.language@, dropped)
            + pair_part("tags"@, joined(kept, ","@), dropped)
            + pair_part("copies"@, crate::filter::copies_spelling(copies_reading(self.copies@)), dropped)
            + pair_part("added"@, crate::filter::added_spelling(added_reading(self.added@)), dropped)
            + pair_part("versions"@, crate::filter::versions_spelling(versions_reading(self.versions@)), dropped)
            + pair_part("favorited"@, crate::filter::favorited_spelling(favorited_reading(self.favorited@)), dropped)
            + pair_part("sort"@, self.sort@, dropped)
            + flag_part(self.unpackaged is Some, "unpackaged"@, dropped)
            + flag_part(self.filename is Some, "filename"@, dropped)
    }

    /// The tags a link keeps: the chosen ones, less the one a `tag:<slug>` drop names.
    fn kept_tags(&self, dropped: &str) -> (kept: Vec<String>)
        ensures
            string_views(kept@) == without_tag(
                sorted_list(chosen_set(self.tags@, self.add_tag@)),
                one_tag_dropped(dropped@),
            ),
    {
        let chosen = self.chosen_tags();
        proof {
            lemma_sorted_list_is(string_views(chosen@));
        }
        let ghost cs = string_views(chosen@);
        let d = chars_of(dropped);
        let tag_prefix = d.len() >= 4 && d[0] == 't' && d[1] == 'a' && d[2] == 'g' && d[3] == ':';
        let one: Option<Vec<char>> = if tag_prefix {
            Some(crate::text::slice_of(d.as_slice(), 4, d.len()))
        } else {
            None
        };
        proof {
            reveal_strlit("tag:");
            if d@.len() >= 4 {
                if tag_prefix {
                    assert(d@.take(4) =~= "tag:"@);
                } else {
                    assert(d@.take(4) != "tag:"@) by {
                        if d@.take(4) == "tag:"@ {
                            assert(d@.take(4)[0] == d@[0]);
                            assert(d@.take(4)[1] == d@[1]);
                            assert(d@.take(4)[2] == d@[2]);
                            assert(d@.take(4)[3] == d@[3]);
                        }
                    }
                }
            }
            match &one {
                Some(o) => {
                    assert(o@ =~= d@.skip(4));
                },
                None => {},
            }
        }
        let ghost one_view: Option<Seq<char>> = match &one {
            Some(o) => Some(o@),
            None => None,
        };
        let mut kept: Vec<String> = Vec::new();
        let mut i: usize = 0;
        while i < chosen.len()
            invariant
                i <= chosen@.len(),
                cs == string_views(chosen@),
                one_view == one_tag_dropped(dropped@),
                one_view == match &one {
                    Some(o) => Some(o@),
                    None => None::<Seq<char>>,
                },
                string_views(kept@) == without_tag(cs.take(i as int), one_view),
            decreases chosen@.len() - i,
        {
            proof {
                assert(cs.take(i + 1).drop_last() =~= cs.take(i as int));
                assert(cs.take(i + 1).last() == chosen@[i as int]@);
            }
            let t = chars_of(chosen[i].as_str());
            let is_dropped = match &one {
                Some(o) => same_chars_vec(o, &t),
                None => false,
            };
            if !is_dropped {
                let ghost before = string_views(kept@);
                kept.push(chosen[i].clone());
                proof {
                    assert(string_views(kept@) =~= before.push(chosen@[i as int]@));
                }
            }
            i = i + 1;
        }
        proof {
            assert(cs.take(chosen@.len() as int) =~= cs);
        }
        kept
    }

    /// The parts every link for this filter carries, one list entry each.
    #[verifier::rlimit(40)]
    fn filter_part_list(&self, dropped: &str) -> (parts: Vec<Vec<char>>)
        ensures
            texts(parts@) == self.filter_parts(dropped@),
    {
        let mut parts: Vec<Vec<char>> = Vec::new();
        push_pair(&mut parts, "q", self.q.as_str(), dropped);
        proof {
            assert(texts(parts@) =~= pair_part("q"@, self.q@, dropped@));
        }
        push_pair(&mut parts, "suitability", self.suitability().as_str(), dropped);
        push_pair(&mut parts, "user_score", self.user_score.as_str(), dropped);
        let initial = Initial::parse(self.initial.as_str()).as_str();
        push_pair(&mut parts, "initial", initial.as_str(), dropped);
        let artist = crate::text::trimmed(self.artist.as_str());
        push_pair(&mut parts, "artist", artist.as_str(), dropped);
        push_pair(&mut parts, "favorite", self.favorite.as_str(), dropped);
        push_pair(&mut parts, "melody", self.melody.as_str(), dropped);
        push_pair(&mut parts, "encoding_source", self.encoding_source.as_str(), dropped);
        push_pair(&mut parts, "granularity", self.granularity.as_str(), dropped);
        push_pair(&mut parts, "kind", self.kind.as_str(), dropped);
        push_pair(&mut parts, "language", self.language.as_str(), dropped);
        let kept = self.kept_tags(dropped);
        let tags = join_strings(&kept, ',');
        proof {
            reveal_strlit(",");
            assert(seq![','] =~= ","@);
        }
        push_pair(&mut parts, "tags", tags.as_str(), dropped);
        push_pair(&mut parts, "copies", CopiesFilter::parse(self.copies.as_str()).as_str(), dropped);
        push_pair(&mut parts, "added", AddedFilter::parse(self.added.as_str()).as_str(), dropped);
        push_pair(&mut parts, "versions", VersionsFilter::parse(self.versions.as_str()).as_str(), dropped);
        push_pair(&mut parts, "favorited", FavoritedFilter::parse(self.favorited.as_str()).as_str(), dropped);
        push_pair(&mut parts, "sort", self.sort.as_str(), dropped);
        push_flag(&mut parts, self.unpackaged.is_some(), "unpackaged", dropped);
        push_flag(&mut parts, self.filenames(), "filename", dropped);
        parts
    }

    /// Rebuilds the query string: every filter, at a given offset, with one filter dropped and the
    /// count carried forward when there is one.
    ///
    /// Every filter has to be written here. One left out is a filter that silently disappears the
    /// moment somebody turns a page. The values that have a reading are written as read, so a
    /// nonsense or retired spelling does not survive the first page turn.
    pub fn rebuild(&self, offset: u32, dropped: &str, total: Option<u32>) -> (out: String)
        ensures
            out@ == joined(self.filter_parts(dropped@) + paging_parts(offset, total), "&"@),
    {
        let mut parts = self.filter_part_list(dropped);
        let ghost filters = texts(parts@);
        if offset > 0 {
            let mut part = chars_of("offset=");
            let n = decimal_of(offset as u64);
            push_all(&mut part, n.as_slice());
            parts.push(part);
        }
        match total {
            Some(t) => {
                let mut part = chars_of("total=");
                let n = decimal_of(t as u64);
                push_all(&mut part, n.as_slice());
                parts.push(part);
            },
            None => {},
        }
        proof {
            assert(texts(parts@) =~= filters + paging_parts(offset, total));
            reveal_strlit("&");
        }
        let out = join_texts(&parts, '&');
        proof {
            assert(seq!['&'] =~= "&"@);
        }
        string_of(out.as_slice())
    }

    /// The same query at another offset, carrying the total forward so the next page need not
    /// count again what this one already counted.
    pub fn with_offset(&self, offset: u32, total: u32) -> (out: String)
        ensures
            out@ == joined(self.filter_parts(""@) + paging_parts(offset, Some(total)), "&"@),
    {
        self.rebuild(offset, "", Some(total))
    }

    /// The same query with one filter dropped and paging reset, for a *clear* link. The total is
    /// not carried: dropping a filter changes which songs match.
    pub fn without(&self, dropped: &str) -> (out: String)
        ensures
            out@ == joined(self.filter_parts(dropped@) + paging_parts(0, None), "&"@),
    {
        self.rebuild(0, dropped, None)
    }

    /// The query with every narrowing filter gone and the two view settings kept.
    pub fn only_view(&self) -> (out: String)
        ensures
            out@ == joined(pair_part("sort"@, self.sort@, ""@) + flag_part(self.filename is Some, "filename"@, ""@), "&"@),
    {
        let mut parts: Vec<Vec<char>> = Vec::new();
        push_pair(&mut parts, "sort", self.sort.as_str(), "");
        push_flag(&mut parts, self.filenames(), "filename", "");
        let out = join_texts(&parts, '&');
        proof {
            reveal_strlit("&");
            assert(seq!['&'] =~= "&"@);
        }
        string_of(out.as_slice())
    }
}

/// Whether two character lists are the same.
fn same_chars_vec(a: &Vec<char>, b: &Vec<char>) -> (same: bool)
    ensures
        same == (a@ == b@),
{
    crate::text::same_chars(a.as_slice(), b.as_slice())
}

/// Texts joined with one separator character, as a string.
pub(crate) fn join_strings(v: &Vec<String>, sep: char) -> (out: String)
    ensures
        out@ == joined(string_views(v@), seq![sep]),
{
    let mut parts: Vec<Vec<char>> = Vec::new();
    let mut i: usize = 0;
    while i < v.len()
        invariant
            i <= v@.len(),
            texts(parts@) == string_views(v@).take(i as int),
        decreases v@.len() - i,
    {
        let ghost before = texts(parts@);
        parts.push(chars_of(v[i].as_str()));
        proof {
            assert(texts(parts@) =~= before.push(v@[i as int]@));
            assert(string_views(v@).take(i + 1) =~= string_views(v@).take(i as int).push(v@[i as int]@));
        }
        i = i + 1;
    }
    proof {
        assert(string_views(v@).take(v@.len() as int) =~= string_views(v@));
    }
    let out = join_texts(&parts, sep);
    string_of(out.as_slice())
}


// -- paging --------------------------------------------------------------------------------

/// The paging links: the two steps, the two ends, and a window of numbered pages. Every string is
/// empty when the control it draws would not move.
#[derive(Debug, Default, PartialEq, Eq)]
pub struct PageLinks {
    /// One page back.
    pub previous: String,
    /// One page on.
    pub next: String,
    /// The first page, empty when the window already reaches it.
    pub first: String,
    /// The last page, empty when the window already reaches it.
    pub last: String,
    /// A window of numbered pages around the one being shown, the current one included.
    pub pages: Vec<PageNumber>,
}

/// One numbered page in the pager.
#[derive(Debug, Clone, PartialEq, Eq)]
pub struct PageNumber {
    /// What it says: the page number, counting from one.
    pub number: u32,
    /// The query string that goes to it. Empty for the page being shown, which is drawn as a label.
    pub query: String,
    /// Whether this is the page being shown.
    pub current: bool,
}

/// How many pages either side of the current one the window reaches.
pub const PAGE_WINDOW: u32 = 5;

/// The page being shown, counting from zero.
pub open spec fn page_here(offset: u32, page_size: u32) -> int {
    offset as int / page_size as int
}

/// The last page: the one the total ends on, but never before the page being shown, and past it
/// while there is demonstrably another page.
pub open spec fn page_last(offset: u32, total: u32, page_size: u32, has_more: bool) -> int {
    let here = page_here(offset, page_size);
    let counted = if total == 0 {
        0
    } else {
        (total as int - 1) / page_size as int
    };
    let at_least = if has_more {
        here + 1
    } else {
        here
    };
    if counted >= at_least {
        counted
    } else {
        at_least
    }
}

/// The first page of the window: five before the one shown, but not before the first.
pub open spec fn window_from(offset: u32, page_size: u32) -> int {
    let here = page_here(offset, page_size);
    if here >= PAGE_WINDOW {
        here - PAGE_WINDOW
    } else {
        0
    }
}

/// The last page of the window: five after the one shown, but not past the last.
pub open spec fn window_to(offset: u32, total: u32, page_size: u32, has_more: bool) -> int {
    let here = page_here(offset, page_size);
    let last = page_last(offset, total, page_size, has_more);
    if here + PAGE_WINDOW <= last {
        here + PAGE_WINDOW
    } else {
        last
    }
}

/// A link the pager draws to page `page`, by calling `at` for it, or an empty one.
pub open spec fn links_to<F: Fn(u32) -> String>(at: F, page: int, link: String) -> bool {
    0 <= page <= u32::MAX && call_ensures(at, (page as u32,), link)
}

/// Works out where the paging controls go.
///
/// `has_more` is whether the query fetched a row past the page, and is what decides whether *next*
/// exists. The numbers read `total`, which may lag a scan writing underneath; so the last page is
/// at least the one being shown, and past it while *next* is live. `at` writes the query for a page
/// number.
pub fn page_links<F: Fn(u32) -> String>(
    offset: u32,
    total: u32,
    page_size: u32,
    has_more: bool,
    at: F,
) -> (links: PageLinks)
    requires
        page_size > 0,
        page_here(offset, page_size) + PAGE_WINDOW <= u32::MAX,
        window_to(offset, total, page_size, has_more) < u32::MAX,
        forall|p: u32| call_requires(at, (p,)),
    ensures
        ({
            let here = page_here(offset, page_size);
            let last = page_last(offset, total, page_size, has_more);
            let from = window_from(offset, page_size);
            let to = window_to(offset, total, page_size, has_more);
            &&& if here > 0 {
                links_to(at, here - 1, links.previous)
            } else {
                links.previous@.len() == 0
            }
            &&& if has_more {
                links_to(at, here + 1, links.next)
            } else {
                links.next@.len() == 0
            }
            &&& if from > 0 {
                links_to(at, 0, links.first)
            } else {
                links.first@.len() == 0
            }
            &&& if to < last {
                links_to(at, last, links.last)
            } else {
                links.last@.len() == 0
            }
            &&& links.pages@.len() == to - from + 1
            &&& forall|i: int|
                0 <= i < links.pages@.len() ==> {
                    let page = #[trigger] links.pages@[i];
                    &&& page.number == from + i + 1
                    &&& page.current == (from + i == here)
                    &&& if from + i == here {
                        page.query@.len() == 0
                    } else {
                        links_to(at, from + i, page.query)
                    }
                }
        }),
{
    let here = offset / page_size;
    let counted: u32 = if total == 0 {
        0
    } else {
        (total - 1) / page_size
    };
    let at_least = if has_more {
        here + 1
    } else {
        here
    };
    let last = if counted >= at_least {
        counted
    } else {
        at_least
    };
    let from = if here >= PAGE_WINDOW {
        here - PAGE_WINDOW
    } else {
        0
    };
    let to = if here + PAGE_WINDOW <= last {
        here + PAGE_WINDOW
    } else {
        last
    };
    let previous = if here > 0 {
        at(here - 1)
    } else {
        String::new()
    };
    let next = if has_more {
        at(here + 1)
    } else {
        String::new()
    };
    let first = if from > 0 {
        at(0)
    } else {
        String::new()
    };
    let last_link = if to < last {
        at(last)
    } else {
        String::new()
    };
    let mut pages: Vec<PageNumber> = Vec::new();
    let mut page = from;
    while page <= to
        invariant
            from <= page,
            page <= to + 1,
            to <= here + PAGE_WINDOW,
            here + PAGE_WINDOW <= u32::MAX,
            to < u32::MAX,
            from as int == window_from(offset, page_size),
            to as int == window_to(offset, total, page_size, has_more),
            here as int == page_here(offset, page_size),
            forall|p: u32| call_requires(at, (p,)),
            pages@.len() == page - from,
            forall|i: int|
                0 <= i < pages@.len() ==> {
                    let pn = #[trigger] pages@[i];
                    &&& pn.number == from + i + 1
                    &&& pn.current == (from + i == here)
                    &&& if from + i == here {
                        pn.query@.len() == 0
                    } else {
                        links_to(at, from + i, pn.query)
                    }
                },
        decreases to + 1 - page,
    {
        let query = if page == here {
            String::new()
        } else {
            at(page)
        };
        pages.push(PageNumber { number: page + 1, query, current: page == here });
        page = page + 1;
    }
    PageLinks { previous, next, first, last: last_link, pages }
}

/// The window always holds the page being shown, never ends behind it, and never reaches further
/// than five pages either side; the last page is never before the one shown, and is past it
/// whenever there is another page.
pub proof fn law_the_window_holds_the_page_being_shown(
    offset: u32,
    total: u32,
    page_size: u32,
    has_more: bool,
)
    requires
        page_size > 0,
    ensures
        window_from(offset, page_size) <= page_here(offset, page_size) <= window_to(offset, total, page_size, has_more),
        window_to(offset, total, page_size, has_more) - window_from(offset, page_size) <= 2 * PAGE_WINDOW,
        page_last(offset, total, page_size, has_more) >= page_here(offset, page_size),
        has_more ==> page_last(offset, total, page_size, has_more) > page_here(offset, page_size),
        window_to(offset, total, page_size, has_more) <= page_last(offset, total, page_size, has_more),
        0 <= window_from(offset, page_size),
{
}


// -- the chips ------------------------------------------------------------------------------

/// What a chip says, before it is put into words: which sentence, and the one value it names.
#[derive(Debug, Clone, Copy, PartialEq, Eq, Structural)]
pub enum ChipKind {
    /// The words looked for, in quotes.
    Words,
    /// *by* the artist.
    By,
    /// What a title starts with.
    Initial,
    /// The suitability band.
    Suitability,
    /// A hand-set score is set.
    ScoreSet,
    /// No hand-set score.
    ScoreUnset,
    /// A hand-set score of at least the value.
    ScoreAtLeast,
    /// A melody was found.
    MelodyFound,
    /// The melody finder abstained.
    MelodyAbstained,
    /// MIDI files only.
    MidiOnly,
    /// Videos only.
    VideoOnly,
    /// MP3+G pairs only.
    CdgOnly,
    /// The language.
    Language,
    /// One tag.
    Tag,
    /// Lyrics timed per syllable.
    LyricsPerSyllable,
    /// Lyrics timed per line.
    LyricsPerLine,
    /// No lyrics.
    NoLyrics,
    /// A lyric timing nothing recognizes, shown as it came.
    Granularity,
    /// How the encoding was arrived at, in a word.
    Encoding,
    /// In one favorite list, by name.
    InFavorite,
    /// Filed or not.
    Favorited,
    /// How many copies.
    Copies,
    /// How long ago added.
    Added,
    /// Every version shown.
    Versions,
    /// Only songs in no package.
    NotPackaged,
}

/// One filter narrowing the list, as a chip: what it says, and the link that takes it off.
#[derive(Debug)]
pub struct ActiveFilter {
    /// Which sentence the chip is.
    pub kind: ChipKind,
    /// The value the sentence names, or nothing.
    pub value: String,
    /// The key the chip's link drops: a filter's own, or `tag:<slug>` for one tag.
    pub key: String,
    /// The query with this filter dropped and paging reset.
    pub remove: String,
}

/// A chip as its key, what it says, and the value it names.
pub type ChipView = (Seq<char>, ChipKind, Seq<char>);

/// The chips of a list, as views.
pub open spec fn chip_views(chips: Seq<ActiveFilter>) -> Seq<ChipView> {
    chips.map_values(|c: ActiveFilter| (c.key@, c.kind, c.value@))
}

/// A favorite list as its id and name.
pub open spec fn favorite_views(favs: Seq<crate::model::FavoriteNode>) -> Seq<(i64, Seq<char>)> {
    favs.map_values(|f: crate::model::FavoriteNode| (f.id, f.name@))
}

/// A signed number as `Display` writes it.
pub open spec fn signed_text(n: int) -> Seq<char> {
    if n >= 0 {
        decimal(n as nat)
    } else {
        seq!['-'] + decimal((-n) as nat)
    }
}

/// The name of the favorite list whose id is written `wanted`, or `wanted` itself when none is.
pub open spec fn favorite_name(favs: Seq<(i64, Seq<char>)>, wanted: Seq<char>) -> Seq<char>
    decreases favs.len(),
{
    if favs.len() == 0 {
        wanted
    } else if signed_text(favs[0].0 as int) == wanted {
        favs[0].1
    } else {
        favome_rest(favs, wanted)
    }
}

/// The name among all but the first.
pub open spec fn favome_rest(favs: Seq<(i64, Seq<char>)>, wanted: Seq<char>) -> Seq<char>
    decreases favs.len(), 0int,
{
    if favs.len() == 0 {
        wanted
    } else {
        favorite_name(favs.drop_first(), wanted)
    }
}

/// How the chip words an encoding source.
pub open spec fn encoding_word(s: Seq<char>) -> Seq<char> {
    if s == "fallback"@ {
        "guessed"@
    } else if s == "detected"@ {
        "detected"@
    } else if s == "utf8"@ {
        "UTF-8"@
    } else if s == "declared"@ {
        "pinned"@
    } else {
        s
    }
}

/// One chip when `on`, none otherwise.
pub open spec fn chip_if(on: bool, key: Seq<char>, kind: ChipKind, value: Seq<char>) -> Seq<ChipView> {
    if on {
        seq![(key, kind, value)]
    } else {
        seq![]
    }
}

/// One chip per tag, each keyed to take off that tag alone.
pub open spec fn tag_chips(tags: Seq<Seq<char>>) -> Seq<ChipView> {
    Seq::new(tags.len(), |i: int| ("tag:"@ + tags[i], ChipKind::Tag, tags[i]))
}

/// Whether a lyric timing is one the chips word.
pub open spec fn known_granularity(g: Seq<char>) -> bool {
    g == "syllablelevel"@ || g == "linelevel"@ || g == "none"@
}

impl FilterQuery {
    /// The chips up to and including the tags, in the order the bar shows them.
    pub open spec fn chips_first(&self) -> Seq<ChipView> {
        let score = score_reading(self.user_score@);
        chip_if(trim(self.q@).len() > 0, "q"@, ChipKind::Words, trim(self.q@))
            + chip_if(trim(self.artist@).len() > 0, "artist"@, ChipKind::By, trim(self.artist@))
            + chip_if(
            initial_reading(self.initial@) != Initial::Any,
            "initial"@,
            ChipKind::Initial,
            crate::filter::initial_spelling(initial_reading(self.initial@)),
        ) + chip_if(
            suitability_reading(self.suitability@) != SuitabilityFilter::Any,
            "suitability"@,
            ChipKind::Suitability,
            crate::filter::suitability_spelling(suitability_reading(self.suitability@)),
        ) + match score {
            ScoreFilter::Any => seq![],
            ScoreFilter::Scored => seq![("user_score"@, ChipKind::ScoreSet, Seq::<char>::empty())],
            ScoreFilter::Unscored => seq![("user_score"@, ChipKind::ScoreUnset, Seq::<char>::empty())],
            ScoreFilter::AtLeast(n) => seq![("user_score"@, ChipKind::ScoreAtLeast, decimal(n as nat))],
        } + chip_if(self.melody@ == "yes"@, "melody"@, ChipKind::MelodyFound, seq![])
            + chip_if(self.melody@ == "no"@, "melody"@, ChipKind::MelodyAbstained, seq![])
            + chip_if(self.kind@ == "midi"@, "kind"@, ChipKind::MidiOnly, seq![])
            + chip_if(self.kind@ == "video"@, "kind"@, ChipKind::VideoOnly, seq![])
            + chip_if(self.kind@ == "cdg"@, "kind"@, ChipKind::CdgOnly, seq![])
            + chip_if(
            language_reading(self.language@) != LanguageFilter::Any,
            "language"@,
            ChipKind::Language,
            crate::filter::language_spelling(language_reading(self.language@)),
        ) + tag_chips(sorted_list(chosen_set(self.tags@, self.add_tag@)))
    }

    /// The chips after the lyric timing.
    pub open spec fn chips_last(&self, favs: Seq<(i64, Seq<char>)>) -> Seq<ChipView> {
        chip_if(
            self.encoding_source@.len() > 0,
            "encoding_source"@,
            ChipKind::Encoding,
            encoding_word(self.encoding_source@),
        ) + chip_if(
            self.favorite@.len() > 0,
            "favorite"@,
            ChipKind::InFavorite,
            favorite_name(favs, self.favorite@),
        ) + chip_if(
            favorited_reading(self.favorited@) != FavoritedFilter::Any,
            "favorited"@,
            ChipKind::Favorited,
            crate::filter::favorited_spelling(favorited_reading(self.favorited@)),
        ) + chip_if(
            copies_reading(self.copies@) != CopiesFilter::Any,
            "copies"@,
            ChipKind::Copies,
            crate::filter::copies_spelling(copies_reading(self.copies@)),
        ) + chip_if(
            added_reading(self.added@) != AddedFilter::Any,
            "added"@,
            ChipKind::Added,
            crate::filter::added_spelling(added_reading(self.added@)),
        ) + chip_if(
            versions_reading(self.versions@) != VersionsFilter::Collapsed,
            "versions"@,
            ChipKind::Versions,
            crate::filter::versions_spelling(versions_reading(self.versions@)),
        ) + chip_if(self.unpackaged is Some, "unpackaged"@, ChipKind::NotPackaged, seq![])
    }

    /// The lyric timing's chip: its word when it is one the chips word, else the value as it came.
    pub open spec fn granularity_chips(&self) -> Seq<ChipView> {
        let g = self.granularity@;
        if g.len() > 0 && !known_granularity(g) {
            seq![("granularity"@, ChipKind::Granularity, g)]
        } else {
            chip_if(g == "syllablelevel"@, "granularity"@, ChipKind::LyricsPerSyllable, seq![])
                + chip_if(g == "linelevel"@, "granularity"@, ChipKind::LyricsPerLine, seq![])
                + chip_if(g == "none"@, "granularity"@, ChipKind::NoLyrics, seq![])
        }
    }

    /// Every chip, in the order the bar shows them: every filter narrowing the list has one, a
    /// lyric timing nothing recognizes included, shown as it came.
    pub open spec fn chips_of(&self, favs: Seq<(i64, Seq<char>)>) -> Seq<ChipView> {
        self.chips_first() + self.granularity_chips() + self.chips_last(favs)
    }

    /// Whether every chip's link is this query with the chip's own key dropped and paging reset.
    pub open spec fn removes_well(&self, chips: Seq<ActiveFilter>) -> bool {
        forall|i: int|
            0 <= i < chips.len() ==> (#[trigger] chips[i]).remove@ == joined(
                self.filter_parts(chips[i].key@) + paging_parts(0, None),
                "&"@,
            )
    }

    fn push_chip(&self, chips: &mut Vec<ActiveFilter>, on: bool, key: &str, kind: ChipKind, value: String)
        requires
            self.removes_well(old(chips)@),
        ensures
            self.removes_well(final(chips)@),
            chip_views(final(chips)@) == chip_views(old(chips)@) + chip_if(on, key@, kind, value@),
    {
        let ghost before = chip_views(chips@);
        if on {
            let remove = self.without(key);
            chips.push(ActiveFilter { kind, value, key: owned(key), remove });
            proof {
                assert(chip_views(chips@) =~= before + chip_if(on, key@, kind, value@));
                assert forall|i: int| 0 <= i < chips@.len() implies (#[trigger] chips@[i]).remove@ == joined(
                    self.filter_parts(chips@[i].key@) + paging_parts(0, None),
                    "&"@,
                ) by {
                    if i < chips@.len() - 1 {
                        assert(chips@[i] == old(chips)@[i]);
                    }
                }
            }
        } else {
            proof {
                assert(chip_views(chips@) =~= before + chip_if(on, key@, kind, value@));
            }
        }
    }

    #[verifier::rlimit(80)]
    #[verifier::spinoff_prover]
    fn first_chips(&self, chips: &mut Vec<ActiveFilter>)
        requires
            old(chips)@.len() == 0,
        ensures
            self.removes_well(final(chips)@),
            chip_views(final(chips)@) == self.chips_first(),
    {
        let q = crate::text::trimmed(self.q.as_str());
        let q_said = chars_of(q.as_str()).len() > 0;
        let artist = crate::text::trimmed(self.artist.as_str());
        let artist_said = chars_of(artist.as_str()).len() > 0;
        self.push_chip(chips, q_said, "q", ChipKind::Words, q);
        proof {
            assert(chip_views(chips@) =~= chip_if(trim(self.q@).len() > 0, "q"@, ChipKind::Words, trim(self.q@)));
        }
        self.push_chip(chips, artist_said, "artist", ChipKind::By, artist);
        let initial = Initial::parse(self.initial.as_str());
        self.push_chip(chips, initial != Initial::Any, "initial", ChipKind::Initial, initial.as_str());
        let band = self.suitability();
        self.push_chip(chips, band != SuitabilityFilter::Any, "suitability", ChipKind::Suitability, owned(band.as_str()));
        let ghost before_score = chip_views(chips@);
        match ScoreFilter::parse(self.user_score.as_str()) {
            ScoreFilter::Any => {
                self.push_chip(chips, false, "user_score", ChipKind::ScoreSet, String::new());
            },
            ScoreFilter::Scored => {
                self.push_chip(chips, true, "user_score", ChipKind::ScoreSet, String::new());
            },
            ScoreFilter::Unscored => {
                self.push_chip(chips, true, "user_score", ChipKind::ScoreUnset, String::new());
            },
            ScoreFilter::AtLeast(n) => {
                let v = decimal_of(n as u64);
                self.push_chip(chips, true, "user_score", ChipKind::ScoreAtLeast, string_of(v.as_slice()));
            },
        }
        let yes = str_eq(self.melody.as_str(), "yes");
        let no = str_eq(self.melody.as_str(), "no");
        self.push_chip(chips, yes, "melody", ChipKind::MelodyFound, String::new());
        self.push_chip(chips, no, "melody", ChipKind::MelodyAbstained, String::new());
        let midi = str_eq(self.kind.as_str(), "midi");
        let video = str_eq(self.kind.as_str(), "video");
        let cdg = str_eq(self.kind.as_str(), "cdg");
        self.push_chip(chips, midi, "kind", ChipKind::MidiOnly, String::new());
        self.push_chip(chips, video, "kind", ChipKind::VideoOnly, String::new());
        self.push_chip(chips, cdg, "kind", ChipKind::CdgOnly, String::new());
        let language = LanguageFilter::parse(self.language.as_str());
        self.push_chip(chips, language != LanguageFilter::Any, "language", ChipKind::Language, language.as_str());
        let chosen = self.chosen_tags();
        proof {
            lemma_sorted_list_is(string_views(chosen@));
        }
        let ghost before_tags = chip_views(chips@);
        let ghost ts = string_views(chosen@);
        let mut i: usize = 0;
        while i < chosen.len()
            invariant
                i <= chosen@.len(),
                ts == string_views(chosen@),
                self.removes_well(chips@),
                chip_views(chips@) == before_tags + tag_chips(ts.take(i as int)),
            decreases chosen@.len() - i,
        {
            let mut key = chars_of("tag:");
            push_str(&mut key, chosen[i].as_str());
            let key = string_of(key.as_slice());
            self.push_chip(chips, true, key.as_str(), ChipKind::Tag, chosen[i].clone());
            proof {
                assert(tag_chips(ts.take(i + 1)) =~= tag_chips(ts.take(i as int)).push(
                    ("tag:"@ + ts[i as int], ChipKind::Tag, ts[i as int]),
                ));
            }
            i = i + 1;
        }
        proof {
            assert(ts.take(chosen@.len() as int) =~= ts);
            reveal_strlit("");
        }
    }

    #[verifier::rlimit(40)]
    fn last_chips(&self, favorites: &[crate::model::FavoriteNode]) -> (chips: Vec<ActiveFilter>)
        ensures
            self.removes_well(chips@),
            chip_views(chips@) == self.chips_last(favorite_views(favorites@)),
    {
        let mut out: Vec<ActiveFilter> = Vec::new();
        let chips = &mut out;
        let source = chars_of(self.encoding_source.as_str()).len() > 0;
        let word = encoding_word_of(self.encoding_source.as_str());
        self.push_chip(chips, source, "encoding_source", ChipKind::Encoding, word);
        proof {
            assert(chip_views(chips@) =~= chip_if(source, "encoding_source"@, ChipKind::Encoding, encoding_word(self.encoding_source@)));
        }
        let named = chars_of(self.favorite.as_str()).len() > 0;
        let name = favorite_name_of(favorites, self.favorite.as_str());
        self.push_chip(chips, named, "favorite", ChipKind::InFavorite, name);
        let filed = FavoritedFilter::parse(self.favorited.as_str());
        self.push_chip(chips, filed != FavoritedFilter::Any, "favorited", ChipKind::Favorited, owned(filed.as_str()));
        let copies = CopiesFilter::parse(self.copies.as_str());
        self.push_chip(chips, copies != CopiesFilter::Any, "copies", ChipKind::Copies, owned(copies.as_str()));
        let added = AddedFilter::parse(self.added.as_str());
        self.push_chip(chips, added != AddedFilter::Any, "added", ChipKind::Added, owned(added.as_str()));
        let versions = VersionsFilter::parse(self.versions.as_str());
        self.push_chip(chips, versions != VersionsFilter::Collapsed, "versions", ChipKind::Versions, owned(versions.as_str()));
        self.push_chip(chips, self.unpackaged.is_some(), "unpackaged", ChipKind::NotPackaged, String::new());
        proof {
            reveal_strlit("");
        }
        out
    }

    /// Every filter currently narrowing the list, as chips in the order the bar shows them, each
    /// with the link that takes it off. Every filter appears here: one left out would narrow the
    /// list with nothing on the page admitting it. `favorites` names the chosen favorite list.
    pub fn active(&self, favorites: &[crate::model::FavoriteNode]) -> (chips: Vec<ActiveFilter>)
        ensures
            chip_views(chips@) == self.chips_of(favorite_views(favorites@)),
            self.removes_well(chips@),
    {
        let mut chips: Vec<ActiveFilter> = Vec::new();
        self.first_chips(&mut chips);
        let g = self.granularity.as_str();
        let syllables = str_eq(g, "syllablelevel");
        let lines = str_eq(g, "linelevel");
        let none = str_eq(g, "none");
        let ghost first = chip_views(chips@);
        if chars_of(g).len() > 0 && !syllables && !lines && !none {
            self.push_chip(&mut chips, true, "granularity", ChipKind::Granularity, self.granularity.clone());
            proof {
                assert(chip_views(chips@) =~= first + self.granularity_chips());
            }
        } else {
            self.push_chip(&mut chips, syllables, "granularity", ChipKind::LyricsPerSyllable, String::new());
            self.push_chip(&mut chips, lines, "granularity", ChipKind::LyricsPerLine, String::new());
            self.push_chip(&mut chips, none, "granularity", ChipKind::NoLyrics, String::new());
            proof {
                assert(chip_views(chips@) =~= first + self.granularity_chips());
            }
        }
        let ghost head = chips@;
        let mut rest = self.last_chips(favorites);
        let ghost tail = rest@;
        chips.append(&mut rest);
        proof {
            assert(chips@ =~= head + tail);
            assert(chip_views(chips@) =~= chip_views(head) + chip_views(tail));
            assert forall|i: int| 0 <= i < chips@.len() implies (#[trigger] chips@[i]).remove@ == joined(
                self.filter_parts(chips@[i].key@) + paging_parts(0, None),
                "&"@,
            ) by {
                if i < head.len() {
                    assert(chips@[i] == head[i]);
                } else {
                    assert(chips@[i] == tail[i - head.len()]);
                }
            }
        }
        chips
    }
}

/// How the chip words an encoding source.
fn encoding_word_of(s: &str) -> (w: String)
    ensures
        w@ == encoding_word(s@),
{
    if str_eq(s, "fallback") {
        owned("guessed")
    } else if str_eq(s, "detected") {
        owned("detected")
    } else if str_eq(s, "utf8") {
        owned("UTF-8")
    } else if str_eq(s, "declared") {
        owned("pinned")
    } else {
        owned(s)
    }
}

/// A signed number as `Display` writes it.
fn signed_string(n: i64) -> (s: Vec<char>)
    ensures
        s@ == signed_text(n as int),
{
    if n >= 0 {
        decimal_of(n as u64)
    } else {
        let magnitude: u64 = if n == i64::MIN {
            9223372036854775808u64
        } else {
            (-n) as u64
        };
        let mut out = vec!['-'];
        let digits = decimal_of(magnitude);
        push_all(&mut out, digits.as_slice());
        proof {
            assert(out@ =~= seq!['-'] + decimal((-(n as int)) as nat));
        }
        out
    }
}

/// The name of the favorite list whose id is written `wanted`, or `wanted` itself.
fn favorite_name_of(favorites: &[crate::model::FavoriteNode], wanted: &str) -> (name: String)
    ensures
        name@ == favorite_name(favorite_views(favorites@), wanted@),
{
    let ghost fv = favorite_views(favorites@);
    let w = chars_of(wanted);
    let mut i: usize = 0;
    proof {
        assert(fv.skip(0) =~= fv);
    }
    while i < favorites.len()
        invariant
            i <= favorites@.len(),
            fv == favorite_views(favorites@),
            w@ == wanted@,
            favorite_name(fv, wanted@) == favorite_name(fv.skip(i as int), wanted@),
        decreases favorites@.len() - i,
    {
        let id = signed_string(favorites[i].id);
        proof {
            let rest = fv.skip(i as int);
            assert(rest[0] == (favorites@[i as int].id, favorites@[i as int].name@));
            assert(rest.drop_first() =~= fv.skip(i + 1));
        }
        if crate::text::same_chars(id.as_slice(), w.as_slice()) {
            return favorites[i].name.clone();
        }
        i = i + 1;
    }
    proof {
        assert(fv.skip(i as int).len() == 0);
    }
    owned(wanted)
}

} // verus!
