//! What the pages send besides the browse filter: the small queries each route reads, and the
//! rules that turn them into an answer.

use vstd::prelude::*;
use crate::text::{chars_of, string_of, push_all, push_str, str_eq, decimal, decimal_of, encode,
    encoded_bytes, owned, trim, trim_chars, split_chars, split_on, slice_of, find_char, index_of,
    lemma_index_of};
use crate::form::{Fields, value_under, values_under, form_pairs, parse_u32, u32_value};
use crate::model::optional_string;
use crate::browse::{FilterQuery, Filter, FilterForm, joined, url_value, string_views, read_as};
use crate::filter::{SuitabilityFilter, CopiesFilter, VersionsFilter, ScoreFilter, Initial,
    FavoritedFilter, AddedFilter, LanguageFilter, suitability_reading, copies_reading,
    versions_reading, suitability_spelling, copies_spelling, versions_spelling, texts};
use crate::model::{SongKind, kind_filter};

verus! {

broadcast use vstd::string::group_string_axioms;

// -- opening a folder ----------------------------------------------------------------------

/// Where the folder browser should look.
#[derive(Debug)]
pub struct OpenQuery {
    /// The folder to list. Absent means wherever the browser starts.
    pub at: Option<String>,
    /// Present to list the drives rather than a folder. Only whether the key is there is read.
    pub drives: Option<String>,
    /// Show only folders whose name holds this. Empty is every folder.
    pub filter: String,
    /// Which page of the folders, as a row index. Absent is the first.
    pub offset: Option<usize>,
    /// Present to answer with the folders alone rather than the whole listing.
    pub rows: Option<String>,
}

/// Whether `s` begins with `prefix`.
pub open spec fn begins_with(s: Seq<char>, prefix: Seq<char>) -> bool {
    prefix.len() <= s.len() && s.take(prefix.len() as int) == prefix
}

fn starts_with(s: &[char], prefix: &[char]) -> (b: bool)
    ensures
        b == begins_with(s@, prefix@),
{
    if prefix.len() > s.len() {
        return false;
    }
    let mut i: usize = 0;
    while i < prefix.len()
        invariant
            prefix@.len() <= s@.len(),
            i <= prefix@.len(),
            forall|j: int| 0 <= j < i ==> s@[j] == prefix@[j],
        decreases prefix@.len() - i,
    {
        if s[i] != prefix[i] {
            proof {
                assert(s@.take(prefix@.len() as int)[i as int] != prefix@[i as int]);
            }
            return false;
        }
        i = i + 1;
    }
    proof {
        assert(s@.take(prefix@.len() as int) =~= prefix@);
    }
    true
}

/// Which address opening the page in a browser hands over: what the page asked for if it is one of
/// ours, else the plain address.
pub open spec fn browser_target_of(asked: Option<Seq<char>>, base: Seq<char>) -> Seq<char> {
    match asked {
        Some(a) => if begins_with(a, base) {
            a
        } else {
            base
        },
        None => base,
    }
}

/// Which address [`browser_target_of`] says to open.
///
/// The whole of the security of opening a page in a browser: the string arrives from the page and
/// ends up as an argument to the platform's opener, so anything that is not under this server's
/// own address (which ends in `/`) silently becomes the plain address.
pub fn browser_target(asked: Option<&str>, base: &str) -> (target: String)
    ensures
        target@ == browser_target_of(crate::model::optional_text(asked), base@),
{
    match asked {
        Some(a) => {
            let av = chars_of(a);
            let bv = chars_of(base);
            if starts_with(av.as_slice(), bv.as_slice()) {
                owned(a)
            } else {
                owned(base)
            }
        },
        None => owned(base),
    }
}

// -- searching the words -------------------------------------------------------------------

/// How many hits a page of lyric search holds: every hit is two rows, and a screen of passages is
/// read rather than scanned.
pub const LYRIC_PAGE_SIZE: u32 = 25;

/// The lyric search as it arrives from the query string.
#[derive(Debug)]
pub struct LyricQuery {
    /// What to look for.
    pub q: String,
    /// Which hit the page starts at.
    pub offset: Option<u32>,
}

/// One page of a lyric search, as the database is asked for it.
#[derive(Debug)]
pub struct LyricSearch {
    /// What to look for.
    pub query: String,
    /// How many hits a page holds.
    pub limit: u32,
    /// Which hit the page starts at.
    pub offset: u32,
}

impl LyricQuery {
    /// The page this query asks for.
    pub fn to_search(&self) -> (s: LyricSearch)
        ensures
            s.query@ == self.q@,
            s.limit == LYRIC_PAGE_SIZE,
            s.offset == match self.offset {
                Some(n) => n,
                None => 0,
            },
    {
        LyricSearch {
            query: self.q.clone(),
            limit: LYRIC_PAGE_SIZE,
            offset: match self.offset {
                Some(n) => n,
                None => 0,
            },
        }
    }

    /// The same search at another offset, for the paging buttons: one field to carry, so nothing
    /// to forget.
    pub fn with_offset(&self, offset: u32) -> (out: String)
        ensures
            out@ == "q="@ + url_value(self.q@) + if offset > 0 {
                "&offset="@ + decimal(offset as nat)
            } else {
                Seq::<char>::empty()
            },
    {
        let mut out = chars_of("q=");
        let e = encode(self.q.as_str());
        push_str(&mut out, e.as_str());
        if offset > 0 {
            push_str(&mut out, "&offset=");
            let n = decimal_of(offset as u64);
            push_all(&mut out, n.as_slice());
        }
        string_of(out.as_slice())
    }
}

// -- the similar-names search --------------------------------------------------------------

/// The narrowing the similar-names page last used, remembered for a search that names none.
#[derive(Debug)]
pub struct SimilarNarrowing {
    /// The suitability band.
    pub suitability: String,
    /// Which kind of file.
    pub kind: String,
    /// How finely the lyrics are timed.
    pub granularity: String,
    /// How many copies.
    pub copies: String,
    /// `all` for every version.
    pub versions: String,
}

/// The similar-names search as it arrives. The five narrowing fields carry the browse bar's names
/// and spellings; none of them at all means *as last set*.
#[derive(Debug)]
pub struct SimilarQuery {
    /// The title to look for.
    pub title: String,
    /// The artist to look for.
    pub artist: String,
    /// The song the search is for.
    pub from: String,
    /// `8-10` · `5-7` · `0-4`.
    pub suitability: Option<String>,
    /// `midi`, `video` or `cdg`.
    pub kind: Option<String>,
    /// `syllablelevel` · `linelevel` · `none`.
    pub granularity: Option<String>,
    /// `1` · `2-10` · `10+`.
    pub copies: Option<String>,
    /// `all` for every version of a recording.
    pub versions: Option<String>,
}

/// A text that may be missing, as characters, nothing standing for empty.
pub open spec fn or_empty(s: Option<String>) -> Seq<char> {
    match s {
        Some(t) => t@,
        None => seq![],
    }
}

/// The first value under a key, as characters, nothing standing for empty.
pub open spec fn field_text(fields: Seq<(Seq<char>, Seq<char>)>, key: Seq<char>) -> Seq<char> {
    match value_under(fields, key) {
        Some(v) => v,
        None => seq![],
    }
}

fn optional_copy(s: &Option<String>) -> (out: String)
    ensures
        out@ == or_empty(*s),
{
    match s {
        Some(t) => t.clone(),
        None => String::new(),
    }
}

impl SimilarQuery {
    /// The search as the similar-names page's bar posts it beside the ticks: the first value of each
    /// field, and the five narrowing fields always taken as given, `versions` only when it is there.
    pub fn from_fields(fields: &Fields) -> (q: SimilarQuery)
        ensures
            q.title@ == field_text(fields@, "title"@),
            q.artist@ == field_text(fields@, "artist"@),
            q.from@ == field_text(fields@, "from"@),
            optional_string(q.suitability) == Some(field_text(fields@, "suitability"@)),
            optional_string(q.kind) == Some(field_text(fields@, "kind"@)),
            optional_string(q.granularity) == Some(field_text(fields@, "granularity"@)),
            optional_string(q.copies) == Some(field_text(fields@, "copies"@)),
            optional_string(q.versions) == value_under(fields@, "versions"@),
    {
        SimilarQuery {
            title: owned(fields.text("title")),
            artist: owned(fields.text("artist")),
            from: owned(fields.text("from")),
            suitability: Some(owned(fields.text("suitability"))),
            kind: Some(owned(fields.text("kind"))),
            granularity: Some(owned(fields.text("granularity"))),
            copies: Some(owned(fields.text("copies"))),
            versions: if fields.has("versions") {
                Some(owned(fields.text("versions")))
            } else {
                None
            },
        }
    }

    /// Whether the query names any of the five narrowing fields, which is the bar speaking.
    pub open spec fn narrows(&self) -> bool {
        self.suitability is Some || self.kind is Some || self.granularity is Some || self.copies is Some
            || self.versions is Some
    }

    /// The query with its narrowing settled against what was last used.
    ///
    /// A query naming any of the five is the bar speaking: it is used as sent, and what it says is
    /// handed back to be remembered. A query naming none is a link carrying only a name, and takes
    /// the remembered five.
    pub fn narrowed(self, remembered: SimilarNarrowing) -> (r: (SimilarQuery, Option<SimilarNarrowing>))
        ensures
            r.0.title@ == self.title@,
            r.0.artist@ == self.artist@,
            r.0.from@ == self.from@,
            self.narrows() ==> {
                &&& optional_string(r.0.suitability) == optional_string(self.suitability)
                &&& optional_string(r.0.kind) == optional_string(self.kind)
                &&& optional_string(r.0.granularity) == optional_string(self.granularity)
                &&& optional_string(r.0.copies) == optional_string(self.copies)
                &&& optional_string(r.0.versions) == optional_string(self.versions)
                &&& r.1 matches Some(n) && n.suitability@ == or_empty(self.suitability) && n.kind@
                    == or_empty(self.kind) && n.granularity@ == or_empty(self.granularity) && n.copies@
                    == or_empty(self.copies) && n.versions@ == versions_spelling(
                    versions_reading(or_empty(self.versions)),
                )
            },
            !self.narrows() ==> {
                &&& optional_string(r.0.suitability) == Some(remembered.suitability@)
                &&& optional_string(r.0.kind) == Some(remembered.kind@)
                &&& optional_string(r.0.granularity) == Some(remembered.granularity@)
                &&& optional_string(r.0.copies) == Some(remembered.copies@)
                &&& optional_string(r.0.versions) == Some(remembered.versions@)
                &&& r.1 is None
            },
    {
        let given = self.suitability.is_some() || self.kind.is_some() || self.granularity.is_some()
            || self.copies.is_some() || self.versions.is_some();
        if given {
            let keep = SimilarNarrowing {
                suitability: optional_copy(&self.suitability),
                kind: optional_copy(&self.kind),
                granularity: optional_copy(&self.granularity),
                copies: optional_copy(&self.copies),
                versions: owned(self.versions().as_str()),
            };
            (self, Some(keep))
        } else {
            let q = SimilarQuery {
                title: self.title,
                artist: self.artist,
                from: self.from,
                suitability: Some(remembered.suitability),
                kind: Some(remembered.kind),
                granularity: Some(remembered.granularity),
                copies: Some(remembered.copies),
                versions: Some(remembered.versions),
            };
            (q, None)
        }
    }

    /// The suitability band as sent, empty for any.
    pub fn suitability(&self) -> (s: &str)
        ensures
            s@ == or_empty(self.suitability),
    {
        match &self.suitability {
            Some(t) => t.as_str(),
            None => {
                proof {
                    reveal_strlit("");
                }
                ""
            },
        }
    }

    /// The kind of file as sent, empty for any.
    pub fn kind(&self) -> (s: &str)
        ensures
            s@ == or_empty(self.kind),
    {
        match &self.kind {
            Some(t) => t.as_str(),
            None => {
                proof {
                    reveal_strlit("");
                }
                ""
            },
        }
    }

    /// The lyric timing as sent, empty for any.
    pub fn granularity(&self) -> (s: &str)
        ensures
            s@ == or_empty(self.granularity),
    {
        match &self.granularity {
            Some(t) => t.as_str(),
            None => {
                proof {
                    reveal_strlit("");
                }
                ""
            },
        }
    }

    /// The copies bucket as sent, empty for any.
    pub fn copies(&self) -> (s: &str)
        ensures
            s@ == or_empty(self.copies),
    {
        match &self.copies {
            Some(t) => t.as_str(),
            None => {
                proof {
                    reveal_strlit("");
                }
                ""
            },
        }
    }

    /// Whether every version is asked for.
    pub fn versions(&self) -> (v: VersionsFilter)
        ensures
            v == versions_reading(or_empty(self.versions)),
    {
        match &self.versions {
            Some(t) => VersionsFilter::parse(t.as_str()),
            None => {
                proof {
                    reveal_strlit("all");
                    assert(Seq::<char>::empty().len() != "all"@.len());
                }
                VersionsFilter::Collapsed
            },
        }
    }

    /// What narrows the candidates: the five fields, and nothing else.
    pub fn to_filter(&self) -> (f: Filter)
        ensures
            f.suitability == suitability_reading(or_empty(self.suitability)),
            f.kind == kind_filter(or_empty(self.kind)),
            optional_string(f.granularity) == crate::browse::when_given(or_empty(self.granularity)),
            f.copies == copies_reading(or_empty(self.copies)),
            f.versions == versions_reading(or_empty(self.versions)),
            f.query is None,
            f.user_score == ScoreFilter::Any,
            f.initial == Initial::Any,
            f.artist is None,
            f.favorited == FavoritedFilter::Any,
            f.favorite is None,
            f.melody is None,
            f.encoding_source is None,
            f.added == AddedFilter::Any,
            !f.unpackaged,
            f.in_package is None,
            f.language == LanguageFilter::Any,
            f.tags@.len() == 0,
            f.sort@.len() == 0,
            f.limit == 0,
            f.offset == 0,
    {
        let g = self.granularity();
        let gv = chars_of(g);
        let granularity = if gv.len() > 0 {
            Some(owned(g))
        } else {
            None
        };
        Filter {
            query: None,
            suitability: SuitabilityFilter::parse(self.suitability()),
            user_score: ScoreFilter::Any,
            initial: Initial::Any,
            artist: None,
            favorited: FavoritedFilter::Any,
            favorite: None,
            melody: None,
            encoding_source: None,
            copies: CopiesFilter::parse(self.copies()),
            added: AddedFilter::Any,
            versions: self.versions(),
            unpackaged: false,
            in_package: None,
            granularity,
            kind: SongKind::filter(self.kind()),
            language: LanguageFilter::Any,
            tags: Vec::new(),
            sort: String::new(),
            limit: 0,
            offset: 0,
        }
    }
    /// The bar as the page should draw it, each value through its reading and back.
    pub fn to_form(&self) -> (form: FilterForm)
        ensures
            form.suitability@ == suitability_spelling(suitability_reading(or_empty(self.suitability))),
            form.kind@ == match kind_filter(or_empty(self.kind)) {
                Some(k) => crate::model::kind_spelling(k),
                None => Seq::<char>::empty(),
            },
            form.granularity@ == or_empty(self.granularity),
            form.copies@ == copies_spelling(copies_reading(or_empty(self.copies))),
            form.versions@ == versions_spelling(versions_reading(or_empty(self.versions))),
            form.present@.len() == 0,
            form.tags@.len() == 0,
            form.known_tags@.len() == 0,
            form.suggested_tags@.len() == 0,
            form.q@.len() == 0,
            form.artist@.len() == 0,
            form.user_score@.len() == 0,
            form.initial@.len() == 0,
            form.favorited@.len() == 0,
            form.favorite@.len() == 0,
            form.melody@.len() == 0,
            form.encoding_source@.len() == 0,
            form.language@.len() == 0,
            form.added@.len() == 0,
            !form.unpackaged,
            !form.filename,
            form.sort@.len() == 0,
    {
        let kind = match SongKind::filter(self.kind()) {
            Some(k) => owned(k.as_str()),
            None => String::new(),
        };
        FilterForm {
            present: Vec::new(),
            tags: Vec::new(),
            known_tags: Vec::new(),
            suggested_tags: Vec::new(),
            q: String::new(),
            artist: String::new(),
            suitability: owned(SuitabilityFilter::parse(self.suitability()).as_str()),
            user_score: String::new(),
            initial: String::new(),
            favorited: String::new(),
            favorite: String::new(),
            melody: String::new(),
            encoding_source: String::new(),
            granularity: owned(self.granularity()),
            kind,
            language: String::new(),
            copies: owned(CopiesFilter::parse(self.copies()).as_str()),
            added: String::new(),
            versions: owned(self.versions().as_str()),
            unpackaged: false,
            filename: false,
            sort: String::new(),
        }
    }
}

// -- replies -------------------------------------------------------------------------------

/// Where a change made from the list should put its answer: `row`, `toast`, `hits`, or a message
/// in the page's slot.
#[derive(Debug, Default)]
pub struct ReplyQuery {
    /// The `as` key.
    pub reply_as: Option<String>,
}

impl ReplyQuery {
    /// The list asked for its row back.
    pub fn wants_row(&self) -> (b: bool)
        ensures
            b == (optional_string(self.reply_as) == Some("row"@)),
    {
        match &self.reply_as {
            Some(s) => str_eq(s.as_str(), "row"),
            None => false,
        }
    }

    /// The list asked for a toast, having no row to come back to.
    pub fn wants_toast(&self) -> (b: bool)
        ensures
            b == (optional_string(self.reply_as) == Some("toast"@)),
    {
        match &self.reply_as {
            Some(s) => str_eq(s.as_str(), "toast"),
            None => false,
        }
    }

    /// The similar-names page asked for its matches rather than the Songs page's rows.
    pub fn wants_hits(&self) -> (b: bool)
        ensures
            b == (optional_string(self.reply_as) == Some("hits"@)),
    {
        match &self.reply_as {
            Some(s) => str_eq(s.as_str(), "hits"),
            None => false,
        }
    }
}

/// Which list the Titles actions draw again: the Songs page's rows, or the similar-names matches.
#[derive(Debug)]
pub enum Redraw {
    /// The Songs page's rows, under this filter.
    Rows(Box<FilterQuery>),
    /// The similar-names matches for this search.
    Hits(SimilarQuery),
}

impl Redraw {
    /// Which list to draw again, read before the write so a filter that cannot be read stops the
    /// action rather than leaving names changed and nothing redrawn.
    pub fn from_body(reply: &ReplyQuery, body: &str) -> (r: Result<Redraw, String>)
        ensures
            optional_string(reply.reply_as) == Some("hits"@) ==> r matches Ok(Redraw::Hits(_)),
            optional_string(reply.reply_as) != Some("hits"@) ==> match crate::form::form_pairs(body@) {
                Some(ps) => match r {
                    Ok(Redraw::Rows(q)) => crate::browse::read_as(ps, Ok(*q)),
                    Ok(Redraw::Hits(_)) => false,
                    Err(m) => crate::browse::read_as(ps, Err(m)),
                },
                None => r is Err,
            },
    {
        if reply.wants_hits() {
            Ok(Redraw::Hits(SimilarQuery::from_fields(&Fields::parse(body))))
        } else {
            match FilterQuery::from_body(body) {
                Ok(q) => Ok(Redraw::Rows(Box::new(q))),
                Err(m) => Err(m),
            }
        }
    }
}

// -- the other queries ---------------------------------------------------------------------

/// Which state a row should come back in: plain, editable, asking for a favorite, or asking for a
/// language from the whole standard. Each is a presence flag.
#[derive(Debug, Default)]
pub struct RowQuery {
    /// Title and artist as inputs.
    pub editing: Option<String>,
    /// Asking which favorite.
    pub picking: Option<String>,
    /// Asking which language.
    pub language: Option<String>,
}

/// What encoding to decode lyrics with, when the person picks one.
#[derive(Debug, Default)]
pub struct EncodingQuery {
    /// The encoding's label.
    pub encoding: String,
}

/// Whether the bulk language set has been confirmed yet.
#[derive(Debug, Default)]
pub struct ConfirmQuery {
    /// Present on the confirmed pass.
    pub confirm: Option<String>,
}

/// Whether a chip was asked for open for renaming.
#[derive(Debug, Default)]
pub struct ChipQuery {
    /// Present when it was.
    pub renaming: Option<String>,
}

/// What one song's tag editor is asking for: which way, and which tag.
#[derive(Debug, Default)]
pub struct TagAction {
    /// `add` or `remove`.
    pub action: String,
    /// The tag, as typed.
    pub tag: String,
}

/// Which volume of a package a page or a write is about. Absent means the first.
#[derive(Debug, Default)]
pub struct VolumeQuery {
    /// The volume, from 1.
    pub volume: Option<u32>,
}

impl VolumeQuery {
    /// The volume asked for, from 1: absent and zero both mean the first.
    pub fn number(&self) -> (n: u32)
        ensures
            n == match self.volume {
                Some(v) => if v >= 1 {
                    v
                } else {
                    1
                },
                None => 1,
            },
    {
        match self.volume {
            Some(v) => if v >= 1 {
                v
            } else {
                1
            },
            None => 1,
        }
    }
}

/// What a bulk action was asked to do, before it knows which action it is: the filter, whether the
/// write covers it whole or only the ticked rows, the ticked ids, whether this is the confirmed
/// pass, and the rest of the form.
#[derive(Debug)]
pub struct BulkAction {
    /// The filter to act on.
    pub query: FilterQuery,
    /// Whether the write covers the whole filter rather than the ticked rows.
    pub whole_filter: bool,
    /// The ticked song ids.
    pub ticked: Vec<String>,
    /// Whether this is the confirmed pass.
    pub confirmed: bool,
    /// The rest of the submitted form.
    pub form: Fields,
}


/// The fields a form body makes: its decoded pairs, or none when the decoder refuses it.
pub open spec fn body_fields(body: Seq<char>) -> Seq<(Seq<char>, Seq<char>)> {
    match form_pairs(body) {
        Some(p) => p,
        None => Seq::<(Seq<char>, Seq<char>)>::empty(),
    }
}

impl BulkAction {
    /// The action a bulk form asks for, from the filter its confirmation address counted, whether
    /// that address confirmed, and the submitted body. The confirmed pass acts on the counted set;
    /// the first pass on the bar as it stands, read from the body, and a bar that cannot be read is
    /// refused with the reading's own sentence. `scope=matching` widens the write to the whole
    /// filter; the ticked rows are every `song_id`.
    pub fn from_parts(counted: FilterQuery, confirmed: bool, body: &str) -> (r: Result<BulkAction, String>)
        ensures
            match r {
                Ok(a) => {
                    &&& a.confirmed == confirmed
                    &&& a.form@ == body_fields(body@)
                    &&& a.whole_filter == (value_under(body_fields(body@), "scope"@) == Some("matching"@))
                    &&& a.ticked@.map_values(|t: String| t@) == values_under(body_fields(body@), "song_id"@)
                    &&& if confirmed {
                        a.query == counted
                    } else {
                        form_pairs(body@) matches Some(ps) && read_as(ps, Ok(a.query))
                    }
                },
                Err(m) => !confirmed && match form_pairs(body@) {
                    Some(ps) => read_as(ps, Err(m)),
                    None => true,
                },
            },
    {
        let form = Fields::parse(body);
        let query = if confirmed {
            counted
        } else {
            match FilterQuery::from_body(body) {
                Ok(q) => q,
                Err(m) => {
                    return Err(m);
                },
            }
        };
        let ticked = form.all("song_id");
        let whole_filter = match form.one("scope") {
            Some(v) => str_eq(v, "matching"),
            None => false,
        };
        Ok(BulkAction { query, whole_filter, ticked, confirmed, form })
    }
}

// -- small answers -------------------------------------------------------------------------

/// The verb for a count, where a bracketed plural would read as a form to fill in.
pub fn were(count: u32) -> (verb: &'static str)
    ensures
        verb@ == if count == 1 {
            "was"@
        } else {
            "were"@
        },
{
    if count == 1 {
        "was"
    } else {
        "were"
    }
}

/// What adding songs to a package did: how many went in, and why each of the others did not.
#[derive(Debug, Clone, Copy, PartialEq, Eq, Structural)]
pub struct Added {
    /// Songs that went in.
    pub added: u32,
    /// Songs the package already had.
    pub already: u32,
    /// Songs nobody could give a number.
    pub no_room: u32,
    /// Whether that was because the package's last volume holds every slot.
    pub full: bool,
    /// Of the songs that went in, those that are another file of a song the package had.
    pub clashed: u32,
}

impl Default for Added {
    fn default() -> (a: Added)
        ensures
            a == (Added { added: 0, already: 0, no_room: 0, full: false, clashed: 0 }),
    {
        Added { added: 0, already: 0, no_room: 0, full: false, clashed: 0 }
    }
}

/// What [`add_says`] says of an add, where `highest` is the last number a singer can dial.
pub open spec fn add_text(result: Added, highest: u32) -> Seq<char> {
    "Added "@ + decimal(result.added as nat) + "."@ + already_clause(result) + room_clause(result, highest)
        + clash_clause(result)
}

/// The clause about songs the package already had, if there were any.
pub open spec fn already_clause(result: Added) -> Seq<char> {
    if result.already > 0 {
        " "@ + decimal(result.already as nat) + " "@ + (if result.already == 1 {
            "was"@
        } else {
            "were"@
        }) + " already in it."@
    } else {
        Seq::<char>::empty()
    }
}

/// The clause about songs nobody could number, if there were any, with the remedy that applies.
pub open spec fn room_clause(result: Added, highest: u32) -> Seq<char> {
    if result.no_room > 0 {
        if result.full {
            " "@ + decimal(result.no_room as nat) + " did not fit. A volume holds "@ + decimal(highest as nat)
                + FULL_REMEDY@
        } else {
            " "@ + decimal(result.no_room as nat) + " did not fit. This package's numbers already reach "@
                + decimal(highest as nat) + REFLOW_REMEDY@
        }
    } else {
        Seq::<char>::empty()
    }
}

/// The clause about second files of songs the package had, if any went in.
pub open spec fn clash_clause(result: Added) -> Seq<char> {
    if result.clashed > 0 {
        " "@ + decimal(result.clashed as nat) + " of them "@ + (if result.clashed == 1 {
            "is"@
        } else {
            "are"@
        }) + CLASH_REASON@
    } else {
        Seq::<char>::empty()
    }
}

/// What follows the count when the package's last volume holds every slot.
pub const FULL_REMEDY: &'static str = " songs and this package's last one is full. Source the package from favorites and a sync starts the next volume.";

/// What follows the highest number when the numbers ran to the end and re-flowing frees some.
pub const REFLOW_REMEDY: &'static str = ", the last one a singer can dial. Give it a lower first number on its own page and press Re-flow, which moves every song down and frees the numbers above.";

/// Why a second file of a song the package had went in anyway.
pub const CLASH_REASON: &'static str = " another file of a song this package already had \u{2014} kept, because two takes of one song can be two songs.";

/// What an add says, and whether it reads as a success: a batch that placed nothing is a failure
/// whatever the sentence says. Each reason a song did not go in has its own clause, built from the
/// counts and never from a subtraction, and each verb agrees with its count. `highest` is the last
/// number a singer can dial.
pub fn add_says(result: &Added, highest: u32) -> (said: (bool, String))
    ensures
        said.0 == (result.added > 0),
        said.1@ == add_text(*result, highest),
{
    let mut v: Vec<char> = Vec::new();
    push_str(&mut v, "Added ");
    let n = decimal_of(result.added as u64);
    push_all(&mut v, n.as_slice());
    push_str(&mut v, ".");
    let already = already_words(result);
    push_all(&mut v, already.as_slice());
    let room = room_words(result, highest);
    push_all(&mut v, room.as_slice());
    let clash = clash_words(result);
    push_all(&mut v, clash.as_slice());
    proof {
        assert(v@ =~= add_text(*result, highest));
    }
    (result.added > 0, string_of(v.as_slice()))
}

fn already_words(result: &Added) -> (v: Vec<char>)
    ensures
        v@ == already_clause(*result),
{
    let mut v: Vec<char> = Vec::new();
    if result.already > 0 {
        push_str(&mut v, " ");
        let n = decimal_of(result.already as u64);
        push_all(&mut v, n.as_slice());
        push_str(&mut v, " ");
        push_str(&mut v, were(result.already));
        push_str(&mut v, " already in it.");
    }
    proof {
        assert(v@ =~= already_clause(*result));
    }
    v
}

fn room_words(result: &Added, highest: u32) -> (v: Vec<char>)
    ensures
        v@ == room_clause(*result, highest),
{
    let mut v: Vec<char> = Vec::new();
    if result.no_room > 0 {
        push_str(&mut v, " ");
        let n = decimal_of(result.no_room as u64);
        push_all(&mut v, n.as_slice());
        let h = decimal_of(highest as u64);
        if result.full {
            push_str(&mut v, " did not fit. A volume holds ");
            push_all(&mut v, h.as_slice());
            push_str(&mut v, FULL_REMEDY);
        } else {
            push_str(&mut v, " did not fit. This package's numbers already reach ");
            push_all(&mut v, h.as_slice());
            push_str(&mut v, REFLOW_REMEDY);
        }
    }
    proof {
        assert(v@ =~= room_clause(*result, highest));
    }
    v
}

fn clash_words(result: &Added) -> (v: Vec<char>)
    ensures
        v@ == clash_clause(*result),
{
    let mut v: Vec<char> = Vec::new();
    if result.clashed > 0 {
        push_str(&mut v, " ");
        let n = decimal_of(result.clashed as u64);
        push_all(&mut v, n.as_slice());
        push_str(&mut v, " of them ");
        if result.clashed == 1 {
            push_str(&mut v, "is");
        } else {
            push_str(&mut v, "are");
        }
        push_str(&mut v, CLASH_REASON);
    }
    proof {
        assert(v@ =~= clash_clause(*result));
    }
    v
}

/// The id a create form supplies: the first `id` value, trimmed, unless that leaves nothing. An
/// absent, empty or blank id all mean *generate one*.
pub fn supplied_id(form: &Fields) -> (id: Option<String>)
    ensures
        optional_string(id) == match value_under(form@, "id"@) {
            Some(v) => if trim(v).len() > 0 {
                Some(trim(v))
            } else {
                None
            },
            None => None,
        },
{
    match form.one("id") {
        Some(v) => {
            let t = crate::text::trimmed(v);
            let tv = chars_of(t.as_str());
            if tv.len() > 0 {
                Some(t)
            } else {
                None
            }
        },
        None => None,
    }
}

/// The pieces of a query string that are not the page's offset.
pub open spec fn without_offset(pieces: Seq<Seq<char>>) -> Seq<Seq<char>>
    decreases pieces.len(),
{
    if pieces.len() == 0 {
        seq![]
    } else {
        let rest = without_offset(pieces.drop_last());
        if begins_with(pieces.last(), "offset="@) {
            rest
        } else {
            rest.push(pieces.last())
        }
    }
}

/// The same query with the page taken off: every `&`-separated piece but the `offset=` ones, on the
/// string rather than through a parse, so no second place has to know every key.
pub fn without_page(query: &str) -> (out: String)
    ensures
        out@ == joined(without_offset(split_on(query@, '&')), "&"@),
{
    let v = chars_of(query);
    let pieces = split_chars(v.as_slice(), '&');
    let ghost ps = texts(pieces@);
    let prefix = chars_of("offset=");
    let mut kept: Vec<Vec<char>> = Vec::new();
    let mut i: usize = 0;
    while i < pieces.len()
        invariant
            i <= pieces@.len(),
            ps == texts(pieces@),
            prefix@ == "offset="@,
            texts(kept@) == without_offset(ps.take(i as int)),
        decreases pieces@.len() - i,
    {
        proof {
            assert(ps.take(i + 1).drop_last() =~= ps.take(i as int));
            assert(ps.take(i + 1).last() == pieces@[i as int]@);
        }
        if !starts_with(pieces[i].as_slice(), prefix.as_slice()) {
            let ghost before = texts(kept@);
            kept.push(slice_of(pieces[i].as_slice(), 0, pieces[i].len()));
            proof {
                assert(kept@.last()@ =~= pieces@[i as int]@);
                assert(texts(kept@) =~= before.push(pieces@[i as int]@));
            }
        }
        i = i + 1;
    }
    proof {
        assert(ps.take(pieces@.len() as int) =~= ps);
        reveal_strlit("&");
        assert(seq!['&'] =~= "&"@);
    }
    let out = crate::browse::join_texts(&kept, '&');
    string_of(out.as_slice())
}

/// The badges a hint change has to send.
#[derive(Debug)]
pub struct HintMarks {
    /// A song id and the number it now shows, or an empty one for a song that lost its number.
    pub marks: Vec<(String, String)>,
}

/// The pairs of a list of marks, as characters.
pub open spec fn mark_views(marks: Seq<(String, String)>) -> Seq<(Seq<char>, Seq<char>)> {
    marks.map_values(|m: (String, String)| (m.0@, m.1@))
}

/// The new numbers, one per hinted song from 1, then an empty badge for each song that had one and
/// is not hinted any more.
pub open spec fn marks_of(hinted: Seq<Seq<char>>, previous: Seq<Seq<char>>) -> Seq<(Seq<char>, Seq<char>)> {
    Seq::new(hinted.len(), |i: int| (hinted[i], decimal((i + 1) as nat))) + lost_marks(hinted, previous)
}

/// An empty badge for each previously hinted song that is not hinted now, in order.
pub open spec fn lost_marks(hinted: Seq<Seq<char>>, previous: Seq<Seq<char>>) -> Seq<(Seq<char>, Seq<char>)>
    decreases previous.len(),
{
    if previous.len() == 0 {
        seq![]
    } else {
        let rest = lost_marks(hinted, previous.drop_last());
        if hinted.contains(previous.last()) {
            rest
        } else {
            rest.push((previous.last(), Seq::<char>::empty()))
        }
    }
}

fn contains_text(list: &[String], s: &String) -> (b: bool)
    ensures
        b == string_views(list@).contains(s@),
{
    let mut i: usize = 0;
    while i < list.len()
        invariant
            i <= list@.len(),
            forall|j: int| 0 <= j < i ==> list@[j]@ != s@,
        decreases list@.len() - i,
    {
        if str_eq(list[i].as_str(), s.as_str()) {
            proof {
                assert(string_views(list@)[i as int] == s@);
            }
            return true;
        }
        i = i + 1;
    }
    proof {
        if string_views(list@).contains(s@) {
            let k = choose|k: int| 0 <= k < string_views(list@).len() && string_views(list@)[k] == s@;
            assert(list@[k]@ == s@);
        }
    }
    false
}

/// The badges a hint change has to send: the new numbers, and an empty one per row that lost its.
/// A song in both lists appears once, carrying its new number.
pub fn marks_for(hinted: &[String], previous: &[String]) -> (m: HintMarks)
    requires
        hinted@.len() < u64::MAX,
    ensures
        mark_views(m.marks@) == marks_of(string_views(hinted@), string_views(previous@)),
{
    let ghost hs = string_views(hinted@);
    let ghost ps = string_views(previous@);
    let mut marks: Vec<(String, String)> = Vec::new();
    let mut i: usize = 0;
    while i < hinted.len()
        invariant
            i <= hinted@.len(),
            hinted@.len() < u64::MAX,
            hs == string_views(hinted@),
            mark_views(marks@) == Seq::new(i as nat, |k: int| (hs[k], decimal((k + 1) as nat))),
        decreases hinted@.len() - i,
    {
        let n = decimal_of((i as u64) + 1);
        let ghost before = mark_views(marks@);
        marks.push((hinted[i].clone(), string_of(n.as_slice())));
        proof {
            assert(n@ == decimal((i + 1) as nat));
            assert(mark_views(marks@) =~= before.push((hs[i as int], decimal((i + 1) as nat))));
            assert(mark_views(marks@) =~= Seq::new((i + 1) as nat, |k: int| (hs[k], decimal((k + 1) as nat))));
        }
        i = i + 1;
    }
    let ghost numbered = mark_views(marks@);
    proof {
        assert(numbered =~= Seq::new(hs.len(), |k: int| (hs[k], decimal((k + 1) as nat))));
    }
    let mut j: usize = 0;
    while j < previous.len()
        invariant
            j <= previous@.len(),
            ps == string_views(previous@),
            hs == string_views(hinted@),
            mark_views(marks@) == numbered + lost_marks(hs, ps.take(j as int)),
        decreases previous@.len() - j,
    {
        proof {
            assert(ps.take(j + 1).drop_last() =~= ps.take(j as int));
            assert(ps.take(j + 1).last() == previous@[j as int]@);
        }
        if !contains_text(hinted, &previous[j]) {
            let ghost before = mark_views(marks@);
            marks.push((previous[j].clone(), String::new()));
            proof {
                assert(mark_views(marks@) =~= before.push((previous@[j as int]@, Seq::<char>::empty())));
            }
        }
        j = j + 1;
    }
    proof {
        assert(ps.take(previous@.len() as int) =~= ps);
    }
    HintMarks { marks }
}

// -- which package and volume --------------------------------------------------------------

/// A package and one of its volumes as one select value: the volume, `#`, then the package id.
pub open spec fn slot_of(package_id: Seq<char>, volume: u32) -> Seq<char> {
    decimal(volume as nat) + seq!['#'] + package_id
}

/// A package and one of its volumes as one select value, `<volume>#<package id>`. The volume comes
/// first so the split is at the first `#`, whatever the id holds.
pub fn replace_slot(package_id: &str, volume: u32) -> (slot: String)
    ensures
        slot@ == slot_of(package_id@, volume),
{
    let mut out = decimal_of(volume as u64);
    out.push('#');
    push_str(&mut out, package_id);
    string_of(out.as_slice())
}

/// What a slot reads back as: split at the first `#`, the volume a number above zero, the id
/// not empty.
pub open spec fn slot_reading(slot: Seq<char>) -> Option<(Seq<char>, u32)> {
    let k = index_of(slot, '#');
    if k < 0 {
        None
    } else {
        match u32_value(slot.take(k)) {
            Ok(v) => if v > 0 && slot.skip(k + 1).len() > 0 {
                Some((slot.skip(k + 1), v as u32))
            } else {
                None
            },
            Err(_) => None,
        }
    }
}

/// Reads [`replace_slot`] back.
pub fn parse_replace_slot(slot: &str) -> (r: Option<(String, u32)>)
    ensures
        match r {
            Some((id, v)) => slot_reading(slot@) == Some((id@, v)),
            None => slot_reading(slot@) is None,
        },
{
    let v = chars_of(slot);
    match find_char(v.as_slice(), '#') {
        None => {
            proof {
                lemma_index_of(v@, '#');
            }
            None
        },
        Some(k) => {
            proof {
                crate::text::lemma_first_at_is_index_of(v@, '#', k as int);
            }
            assert(k < v.len());
            let head = slice_of(v.as_slice(), 0, k);
            let tail = slice_of(v.as_slice(), k + 1, v.len());
            proof {
                assert(head@ =~= v@.take(k as int));
                assert(tail@ =~= v@.skip(k + 1));
            }
            let number = string_of(head.as_slice());
            match parse_u32(number.as_str()) {
                Ok(n) => if n > 0 && tail.len() > 0 {
                    Some((string_of(tail.as_slice()), n))
                } else {
                    None
                },
                Err(_) => None,
            }
        },
    }
}

proof fn lemma_digits_value_split(a: Seq<char>, b: Seq<char>, acc: nat)
    ensures
        crate::form::digits_value(a + b, acc) == match crate::form::digits_value(a, acc) {
            Ok(v) => crate::form::digits_value(b, v),
            Err(e) => Err(e),
        },
    decreases a.len(),
{
    if a.len() > 0 {
        assert((a + b)[0] == a[0]);
        assert((a + b).drop_first() =~= a.drop_first() + b);
        let d = a[0];
        if '0' <= d && d <= '9' {
            let next = acc * 10 + crate::form::digit_value(d);
            if next <= u32::MAX {
                lemma_digits_value_split(a.drop_first(), b, next);
            }
        }
    } else {
        assert(a + b =~= b);
    }
}

proof fn lemma_decimal_reads_back(n: nat)
    requires
        n <= u32::MAX,
    ensures
        crate::form::digits_value(decimal(n), 0) == Ok::<nat, crate::form::NumberError>(n),
        !decimal(n).contains('#'),
        decimal(n).len() > 0,
        decimal(n)[0] != '+' && decimal(n)[0] != '-',
    decreases n,
{
    let d = crate::text::digit_char(n % 10);
    assert(crate::form::digit_value(d) == n % 10);
    if n < 10 {
        let s = seq![d];
        assert(s.drop_first() =~= Seq::<char>::empty());
        assert(crate::form::digits_value(s, 0) == crate::form::digits_value(s.drop_first(), n));
    } else {
        lemma_decimal_reads_back(n / 10);
        let s = seq![d];
        lemma_digits_value_split(decimal(n / 10), s, 0);
        assert(decimal(n / 10).push(d) =~= decimal(n / 10) + s);
        assert(s.drop_first() =~= Seq::<char>::empty());
        assert((n / 10) * 10 + n % 10 == n);
        assert(crate::form::digits_value(s, n / 10) == crate::form::digits_value(s.drop_first(), n));
        assert forall|i: int| 0 <= i < decimal(n).len() implies decimal(n)[i] != '#' by {
            if i < decimal(n / 10).len() {
                assert(decimal(n)[i] == decimal(n / 10)[i]);
            }
        }
        assert(decimal(n)[0] == decimal(n / 10)[0]);
    }
}

/// A slot reads back as the package and volume it was written for, whenever the volume is a real
/// one (above zero) and the id is not empty — whatever the id holds, `#` included.
pub proof fn law_a_slot_reads_back(package_id: Seq<char>, volume: u32)
    requires
        volume > 0,
        package_id.len() > 0,
    ensures
        slot_reading(slot_of(package_id, volume)) == Some((package_id, volume)),
{
    let d = decimal(volume as nat);
    let slot = slot_of(package_id, volume);
    lemma_decimal_reads_back(volume as nat);
    assert forall|j: int| 0 <= j < d.len() implies slot[j] != '#' by {
        assert(slot[j] == d[j]);
    }
    assert(slot[d.len() as int] == '#');
    crate::text::lemma_first_at_is_index_of(slot, '#', d.len() as int);
    assert(slot.take(d.len() as int) =~= d);
    assert(slot.skip(d.len() as int + 1) =~= package_id);
}

} // verus!
