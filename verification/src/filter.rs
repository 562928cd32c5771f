//! The values a filter control sends, read into what they narrow by and spelled back out.
//!
//! Every filter on the browse bar is a short word in the query string. Each is read here into a
//! value, and a value is written back with one spelling only: a retired or hand-typed spelling is
//! read once and never propagated, and nonsense reads as *any*, which narrows nothing.

use vstd::prelude::*;
use crate::text::{chars_of, string_of, split_chars, split_on, trim, trim_chars, chars_lt, chars_less,
    same_chars, ascii_lower, decimal, decimal_of, contains_char};
use crate::form::{parse_u32, u32_value};

verus! {

// -- suitability ---------------------------------------------------------------------------

/// Which band of the automatic suitability a song has to be in.
#[derive(Debug, Clone, Copy, PartialEq, Eq, Structural)]
pub enum SuitabilityFilter {
    /// No band: every song.
    Any,
    /// `8-10`.
    High,
    /// `5-7`.
    Middle,
    /// `0-4`.
    Low,
}

/// How a suitability band is read: `8-10`, `5-7` or `0-4`, and anything else as no band.
pub open spec fn suitability_reading(s: Seq<char>) -> SuitabilityFilter {
    if s == "8-10"@ {
        SuitabilityFilter::High
    } else if s == "5-7"@ {
        SuitabilityFilter::Middle
    } else if s == "0-4"@ {
        SuitabilityFilter::Low
    } else {
        SuitabilityFilter::Any
    }
}

/// How a suitability band is written.
pub open spec fn suitability_spelling(f: SuitabilityFilter) -> Seq<char> {
    match f {
        SuitabilityFilter::Any => ""@,
        SuitabilityFilter::High => "8-10"@,
        SuitabilityFilter::Middle => "5-7"@,
        SuitabilityFilter::Low => "0-4"@,
    }
}

impl SuitabilityFilter {
    /// Reads a band.
    pub fn parse(s: &str) -> (f: SuitabilityFilter)
        ensures
            f == suitability_reading(s@),
    {
        if crate::text::str_eq(s, "8-10") {
            SuitabilityFilter::High
        } else if crate::text::str_eq(s, "5-7") {
            SuitabilityFilter::Middle
        } else if crate::text::str_eq(s, "0-4") {
            SuitabilityFilter::Low
        } else {
            SuitabilityFilter::Any
        }
    }

    /// The band's one spelling, empty for no band.
    pub fn as_str(self) -> (s: &'static str)
        ensures
            s@ == suitability_spelling(self),
    {
        match self {
            SuitabilityFilter::Any => "",
            SuitabilityFilter::High => "8-10",
            SuitabilityFilter::Middle => "5-7",
            SuitabilityFilter::Low => "0-4",
        }
    }
}

// -- copies --------------------------------------------------------------------------------

/// How many copies of a song are on disk.
#[derive(Debug, Clone, Copy, PartialEq, Eq, Structural)]
pub enum CopiesFilter {
    /// Any number.
    Any,
    /// `1`.
    One,
    /// `2-10`.
    TwoToTen,
    /// `10+`.
    MoreThanTen,
    /// `2+`: the union of the two above, which the bar cannot show and the Duplicates page links to.
    AtLeastTwo,
}

/// How a copies bucket is read.
pub open spec fn copies_reading(s: Seq<char>) -> CopiesFilter {
    if s == "1"@ {
        CopiesFilter::One
    } else if s == "2-10"@ {
        CopiesFilter::TwoToTen
    } else if s == "10+"@ {
        CopiesFilter::MoreThanTen
    } else if s == "2+"@ {
        CopiesFilter::AtLeastTwo
    } else {
        CopiesFilter::Any
    }
}

/// How a copies bucket is written.
pub open spec fn copies_spelling(f: CopiesFilter) -> Seq<char> {
    match f {
        CopiesFilter::Any => ""@,
        CopiesFilter::One => "1"@,
        CopiesFilter::TwoToTen => "2-10"@,
        CopiesFilter::MoreThanTen => "10+"@,
        CopiesFilter::AtLeastTwo => "2+"@,
    }
}

impl CopiesFilter {
    /// Reads a bucket.
    pub fn parse(s: &str) -> (f: CopiesFilter)
        ensures
            f == copies_reading(s@),
    {
        if crate::text::str_eq(s, "1") {
            CopiesFilter::One
        } else if crate::text::str_eq(s, "2-10") {
            CopiesFilter::TwoToTen
        } else if crate::text::str_eq(s, "10+") {
            CopiesFilter::MoreThanTen
        } else if crate::text::str_eq(s, "2+") {
            CopiesFilter::AtLeastTwo
        } else {
            CopiesFilter::Any
        }
    }

    /// The bucket's one spelling, empty for any number.
    pub fn as_str(self) -> (s: &'static str)
        ensures
            s@ == copies_spelling(self),
    {
        match self {
            CopiesFilter::Any => "",
            CopiesFilter::One => "1",
            CopiesFilter::TwoToTen => "2-10",
            CopiesFilter::MoreThanTen => "10+",
            CopiesFilter::AtLeastTwo => "2+",
        }
    }
}

// -- when added ----------------------------------------------------------------------------

/// How long ago a song was added.
#[derive(Debug, Clone, Copy, PartialEq, Eq, Structural)]
pub enum AddedFilter {
    /// Any time.
    Any,
    /// `1d`.
    LastDay,
    /// `7d`.
    LastWeek,
    /// `30d`.
    LastMonth,
    /// `30d+`.
    Older,
}

/// How an age is read.
pub open spec fn added_reading(s: Seq<char>) -> AddedFilter {
    if s == "1d"@ {
        AddedFilter::LastDay
    } else if s == "7d"@ {
        AddedFilter::LastWeek
    } else if s == "30d"@ {
        AddedFilter::LastMonth
    } else if s == "30d+"@ {
        AddedFilter::Older
    } else {
        AddedFilter::Any
    }
}

/// How an age is written.
pub open spec fn added_spelling(f: AddedFilter) -> Seq<char> {
    match f {
        AddedFilter::Any => ""@,
        AddedFilter::LastDay => "1d"@,
        AddedFilter::LastWeek => "7d"@,
        AddedFilter::LastMonth => "30d"@,
        AddedFilter::Older => "30d+"@,
    }
}

impl AddedFilter {
    /// Reads an age.
    pub fn parse(s: &str) -> (f: AddedFilter)
        ensures
            f == added_reading(s@),
    {
        if crate::text::str_eq(s, "1d") {
            AddedFilter::LastDay
        } else if crate::text::str_eq(s, "7d") {
            AddedFilter::LastWeek
        } else if crate::text::str_eq(s, "30d") {
            AddedFilter::LastMonth
        } else if crate::text::str_eq(s, "30d+") {
            AddedFilter::Older
        } else {
            AddedFilter::Any
        }
    }

    /// The age's one spelling, empty for any time.
    pub fn as_str(self) -> (s: &'static str)
        ensures
            s@ == added_spelling(self),
    {
        match self {
            AddedFilter::Any => "",
            AddedFilter::LastDay => "1d",
            AddedFilter::LastWeek => "7d",
            AddedFilter::LastMonth => "30d",
            AddedFilter::Older => "30d+",
        }
    }
}

// -- versions ------------------------------------------------------------------------------

/// Whether every version of a recording is shown, or one row stands for them all.
#[derive(Debug, Clone, Copy, PartialEq, Eq, Structural)]
pub enum VersionsFilter {
    /// One row per recording.
    Collapsed,
    /// `all`.
    All,
}

/// How the versions setting is read.
pub open spec fn versions_reading(s: Seq<char>) -> VersionsFilter {
    if s == "all"@ {
        VersionsFilter::All
    } else {
        VersionsFilter::Collapsed
    }
}

/// How the versions setting is written.
pub open spec fn versions_spelling(f: VersionsFilter) -> Seq<char> {
    match f {
        VersionsFilter::Collapsed => ""@,
        VersionsFilter::All => "all"@,
    }
}

impl VersionsFilter {
    /// Reads the setting.
    pub fn parse(s: &str) -> (f: VersionsFilter)
        ensures
            f == versions_reading(s@),
    {
        if crate::text::str_eq(s, "all") {
            VersionsFilter::All
        } else {
            VersionsFilter::Collapsed
        }
    }

    /// The setting's one spelling, empty for one row per recording.
    pub fn as_str(self) -> (s: &'static str)
        ensures
            s@ == versions_spelling(self),
    {
        match self {
            VersionsFilter::Collapsed => "",
            VersionsFilter::All => "all",
        }
    }
}

// -- filed or not --------------------------------------------------------------------------

/// Whether a song has to be in a favorite list.
#[derive(Debug, Clone, Copy, PartialEq, Eq, Structural)]
pub enum FavoritedFilter {
    /// Either.
    Any,
    /// `in`, and the `1` the checkbox this replaced sent.
    In,
    /// `out`.
    Out,
}

/// How the filed setting is read: the retired checkbox's `1` folds onto `in`.
pub open spec fn favorited_reading(s: Seq<char>) -> FavoritedFilter {
    if s == "in"@ || s == "1"@ {
        FavoritedFilter::In
    } else if s == "out"@ {
        FavoritedFilter::Out
    } else {
        FavoritedFilter::Any
    }
}

/// How the filed setting is written.
pub open spec fn favorited_spelling(f: FavoritedFilter) -> Seq<char> {
    match f {
        FavoritedFilter::Any => ""@,
        FavoritedFilter::In => "in"@,
        FavoritedFilter::Out => "out"@,
    }
}

impl FavoritedFilter {
    /// Reads the setting.
    pub fn parse(s: &str) -> (f: FavoritedFilter)
        ensures
            f == favorited_reading(s@),
    {
        if crate::text::str_eq(s, "in") || crate::text::str_eq(s, "1") {
            FavoritedFilter::In
        } else if crate::text::str_eq(s, "out") {
            FavoritedFilter::Out
        } else {
            FavoritedFilter::Any
        }
    }

    /// The setting's one spelling, empty for either.
    pub fn as_str(self) -> (s: &'static str)
        ensures
            s@ == favorited_spelling(self),
    {
        match self {
            FavoritedFilter::Any => "",
            FavoritedFilter::In => "in",
            FavoritedFilter::Out => "out",
        }
    }
}

// -- the first character -------------------------------------------------------------------

/// What a title has to start with.
#[derive(Debug, Clone, Copy, PartialEq, Eq, Structural)]
pub enum Initial {
    /// Anything.
    Any,
    /// This letter, held upper case.
    Letter(char),
    /// `0-9`: any digit, and a single digit a link from the old ten-button strip names.
    Number,
    /// `#`: anything that is neither.
    Symbol,
}

/// Whether a character is an ASCII letter.
pub open spec fn ascii_letter(c: char) -> bool {
    (65 <= c as u32 && c as u32 <= 90) || (97 <= c as u32 && c as u32 <= 122)
}

/// The ASCII upper-case letter for an ASCII lower-case one, and every other character as it is.
pub open spec fn ascii_upper(c: char) -> char {
    if 97 <= c as u32 && c as u32 <= 122 {
        ((c as u32) - 32) as char
    } else {
        c
    }
}

/// How a first character is read: one letter in either case, `0-9` or one digit, `#`, and anything
/// else as no restriction.
pub open spec fn initial_reading(s: Seq<char>) -> Initial {
    if s.len() == 1 && ascii_letter(s[0]) {
        Initial::Letter(ascii_upper(s[0]))
    } else if s == "0-9"@ || (s.len() == 1 && 48 <= s[0] as u32 && s[0] as u32 <= 57) {
        Initial::Number
    } else if s == "#"@ {
        Initial::Symbol
    } else {
        Initial::Any
    }
}

/// How a first character is written.
pub open spec fn initial_spelling(f: Initial) -> Seq<char> {
    match f {
        Initial::Any => seq![],
        Initial::Letter(c) => seq![c],
        Initial::Number => "0-9"@,
        Initial::Symbol => "#"@,
    }
}

impl Initial {
    /// Reads a first character.
    pub fn parse(s: &str) -> (f: Initial)
        ensures
            f == initial_reading(s@),
    {
        let v = chars_of(s);
        if v.len() == 1 {
            let c = v[0];
            let n = c as u32;
            if 65 <= n && n <= 90 {
                return Initial::Letter(c);
            }
            if 97 <= n && n <= 122 {
                let up = ((n - 32) as u8) as char;
                proof {
                    assert(up == ascii_upper(c));
                }
                return Initial::Letter(up);
            }
            if 48 <= n && n <= 57 {
                return Initial::Number;
            }
        }
        proof {
            if v@.len() == 1 {
                assert(!ascii_letter(v@[0]));
                assert(!(48 <= v@[0] as u32 && v@[0] as u32 <= 57));
            }
        }
        if crate::text::str_eq(s, "0-9") {
            Initial::Number
        } else if crate::text::str_eq(s, "#") {
            Initial::Symbol
        } else {
            Initial::Any
        }
    }

    /// The restriction's one spelling, empty for none.
    pub fn as_str(self) -> (s: String)
        ensures
            s@ == initial_spelling(self),
    {
        match self {
            Initial::Any => String::new(),
            Initial::Letter(c) => {
                let v = vec![c];
                proof {
                    assert(v@ =~= seq![c]);
                }
                string_of(v.as_slice())
            },
            Initial::Number => crate::text::owned("0-9"),
            Initial::Symbol => crate::text::owned("#"),
        }
    }
}

// -- a hand-set score ----------------------------------------------------------------------

/// What hand-set score a song has to have.
#[derive(Debug, Clone, Copy, PartialEq, Eq, Structural)]
pub enum ScoreFilter {
    /// Any, or none.
    Any,
    /// `set`: somebody has scored it.
    Scored,
    /// `unset`: nobody has.
    Unscored,
    /// A number from 0 to 10: at least this.
    AtLeast(u8),
}

/// How a score filter is read: `set`, `unset`, or a number a score can be (0 to 10), written as
/// `u32::from_str` reads one.
pub open spec fn score_reading(s: Seq<char>) -> ScoreFilter {
    if s == "set"@ {
        ScoreFilter::Scored
    } else if s == "unset"@ {
        ScoreFilter::Unscored
    } else {
        match u32_value(s) {
            Ok(n) => if n <= 10 {
                ScoreFilter::AtLeast(n as u8)
            } else {
                ScoreFilter::Any
            },
            Err(_) => ScoreFilter::Any,
        }
    }
}

/// How a score filter is written.
pub open spec fn score_spelling(f: ScoreFilter) -> Seq<char> {
    match f {
        ScoreFilter::Any => seq![],
        ScoreFilter::Scored => "set"@,
        ScoreFilter::Unscored => "unset"@,
        ScoreFilter::AtLeast(n) => decimal(n as nat),
    }
}

impl ScoreFilter {
    /// Reads a score filter.
    pub fn parse(s: &str) -> (f: ScoreFilter)
        ensures
            f == score_reading(s@),
    {
        if crate::text::str_eq(s, "set") {
            ScoreFilter::Scored
        } else if crate::text::str_eq(s, "unset") {
            ScoreFilter::Unscored
        } else {
            match parse_u32(s) {
                Ok(n) => if n <= 10 {
                    ScoreFilter::AtLeast(n as u8)
                } else {
                    ScoreFilter::Any
                },
                Err(_) => ScoreFilter::Any,
            }
        }
    }

    /// The filter's one spelling, empty for any.
    pub fn as_str(self) -> (s: String)
        ensures
            s@ == score_spelling(self),
    {
        match self {
            ScoreFilter::Any => String::new(),
            ScoreFilter::Scored => crate::text::owned("set"),
            ScoreFilter::Unscored => crate::text::owned("unset"),
            ScoreFilter::AtLeast(n) => {
                let v = decimal_of(n as u64);
                string_of(v.as_slice())
            },
        }
    }
}

// -- language ------------------------------------------------------------------------------

/// Which language a song has to be tagged with.
#[derive(Debug, Clone, Copy, PartialEq, Eq, Structural)]
pub enum LanguageFilter {
    /// Any, or none.
    Any,
    /// `unset`: no language tagged.
    Untagged,
    /// `set`: some language tagged.
    Tagged,
    /// A two-letter ISO 639-1 code.
    Code(char, char),
}

/// Whether a character is an ASCII lower-case letter.
pub open spec fn ascii_lower_letter(c: char) -> bool {
    97 <= c as u32 && c as u32 <= 122
}

/// How a language filter is read: `unset`, `set`, or two lower-case letters, the shape of an
/// ISO 639-1 code; anything else narrows nothing.
pub open spec fn language_reading(s: Seq<char>) -> LanguageFilter {
    if s == "unset"@ {
        LanguageFilter::Untagged
    } else if s == "set"@ {
        LanguageFilter::Tagged
    } else if s.len() == 2 && ascii_lower_letter(s[0]) && ascii_lower_letter(s[1]) {
        LanguageFilter::Code(s[0], s[1])
    } else {
        LanguageFilter::Any
    }
}

/// How a language filter is written.
pub open spec fn language_spelling(f: LanguageFilter) -> Seq<char> {
    match f {
        LanguageFilter::Any => seq![],
        LanguageFilter::Untagged => "unset"@,
        LanguageFilter::Tagged => "set"@,
        LanguageFilter::Code(a, b) => seq![a, b],
    }
}

impl LanguageFilter {
    /// Reads a language filter.
    pub fn parse(s: &str) -> (f: LanguageFilter)
        ensures
            f == language_reading(s@),
    {
        if crate::text::str_eq(s, "unset") {
            return LanguageFilter::Untagged;
        }
        if crate::text::str_eq(s, "set") {
            return LanguageFilter::Tagged;
        }
        let v = chars_of(s);
        if v.len() == 2 {
            let a = v[0] as u32;
            let b = v[1] as u32;
            if 97 <= a && a <= 122 && 97 <= b && b <= 122 {
                return LanguageFilter::Code(v[0], v[1]);
            }
        }
        LanguageFilter::Any
    }

    /// The filter's one spelling, empty for any.
    pub fn as_str(self) -> (s: String)
        ensures
            s@ == language_spelling(self),
    {
        match self {
            LanguageFilter::Any => String::new(),
            LanguageFilter::Untagged => crate::text::owned("unset"),
            LanguageFilter::Tagged => crate::text::owned("set"),
            LanguageFilter::Code(a, b) => {
                let v = vec![a, b];
                proof {
                    assert(v@ =~= seq![a, b]);
                }
                string_of(v.as_slice())
            },
        }
    }
}

// -- one spelling each ---------------------------------------------------------------------

/// Every filter reads its own spelling back as itself, so a value that has been written once
/// survives any number of page turns unchanged.
pub proof fn law_a_spelling_reads_back_as_itself(
    s: SuitabilityFilter,
    c: CopiesFilter,
    a: AddedFilter,
    v: VersionsFilter,
    f: FavoritedFilter,
    l: LanguageFilter,
)
    requires
        l matches LanguageFilter::Code(x, y) ==> ascii_lower_letter(x) && ascii_lower_letter(y),
    ensures
        suitability_reading(suitability_spelling(s)) == s,
        copies_reading(copies_spelling(c)) == c,
        added_reading(added_spelling(a)) == a,
        versions_reading(versions_spelling(v)) == v,
        favorited_reading(favorited_spelling(f)) == f,
        language_reading(language_spelling(l)) == l,
{
    lemma_suitability_round_trip(s);
    lemma_copies_round_trip(c);
    lemma_added_round_trip(a);
    lemma_versions_round_trip(v);
    lemma_favorited_round_trip(f);
    lemma_language_round_trip(l);
}

/// Two texts of different lengths, or with different characters at one place, differ.
proof fn lemma_texts_differ(a: Seq<char>, b: Seq<char>)
    requires
        a.len() != b.len() || exists|i: int| 0 <= i < a.len() && i < b.len() && a[i] != b[i],
    ensures
        a != b,
{
}

proof fn lemma_suitability_round_trip(s: SuitabilityFilter)
    ensures
        suitability_reading(suitability_spelling(s)) == s,
{
    reveal_strlit("");
    reveal_strlit("8-10");
    reveal_strlit("5-7");
    reveal_strlit("0-4");
    assert("5-7"@[0] != "0-4"@[0]);
    lemma_texts_differ(""@, "8-10"@);
    lemma_texts_differ(""@, "5-7"@);
    lemma_texts_differ(""@, "0-4"@);
    lemma_texts_differ("5-7"@, "8-10"@);
    lemma_texts_differ("0-4"@, "8-10"@);
    lemma_texts_differ("0-4"@, "5-7"@);
}

proof fn lemma_copies_round_trip(c: CopiesFilter)
    ensures
        copies_reading(copies_spelling(c)) == c,
{
    reveal_strlit("");
    reveal_strlit("1");
    reveal_strlit("2-10");
    reveal_strlit("10+");
    reveal_strlit("2+");
    lemma_texts_differ(""@, "1"@);
    lemma_texts_differ(""@, "2-10"@);
    lemma_texts_differ(""@, "10+"@);
    lemma_texts_differ(""@, "2+"@);
    lemma_texts_differ("2-10"@, "1"@);
    lemma_texts_differ("10+"@, "1"@);
    lemma_texts_differ("10+"@, "2-10"@);
    lemma_texts_differ("2+"@, "1"@);
    lemma_texts_differ("2+"@, "2-10"@);
    lemma_texts_differ("2+"@, "10+"@);
}

proof fn lemma_added_round_trip(a: AddedFilter)
    ensures
        added_reading(added_spelling(a)) == a,
{
    reveal_strlit("");
    reveal_strlit("1d");
    reveal_strlit("7d");
    reveal_strlit("30d");
    reveal_strlit("30d+");
    assert("1d"@[0] != "7d"@[0]);
    lemma_texts_differ(""@, "1d"@);
    lemma_texts_differ(""@, "7d"@);
    lemma_texts_differ(""@, "30d"@);
    lemma_texts_differ(""@, "30d+"@);
    lemma_texts_differ("7d"@, "1d"@);
    lemma_texts_differ("30d"@, "1d"@);
    lemma_texts_differ("30d"@, "7d"@);
    lemma_texts_differ("30d+"@, "1d"@);
    lemma_texts_differ("30d+"@, "7d"@);
    lemma_texts_differ("30d+"@, "30d"@);
}

proof fn lemma_versions_round_trip(v: VersionsFilter)
    ensures
        versions_reading(versions_spelling(v)) == v,
{
    reveal_strlit("");
    reveal_strlit("all");
    lemma_texts_differ(""@, "all"@);
}

proof fn lemma_favorited_round_trip(f: FavoritedFilter)
    ensures
        favorited_reading(favorited_spelling(f)) == f,
{
    reveal_strlit("");
    reveal_strlit("in");
    reveal_strlit("1");
    reveal_strlit("out");
    lemma_texts_differ(""@, "in"@);
    lemma_texts_differ(""@, "1"@);
    lemma_texts_differ(""@, "out"@);
    lemma_texts_differ("out"@, "in"@);
    lemma_texts_differ("out"@, "1"@);
}

proof fn lemma_language_round_trip(l: LanguageFilter)
    requires
        l matches LanguageFilter::Code(x, y) ==> ascii_lower_letter(x) && ascii_lower_letter(y),
    ensures
        language_reading(language_spelling(l)) == l,
{
    reveal_strlit("unset");
    reveal_strlit("set");
    lemma_texts_differ("unset"@, "set"@);
    let e: Seq<char> = seq![];
    lemma_texts_differ(e, "unset"@);
    lemma_texts_differ(e, "set"@);
    match l {
        LanguageFilter::Code(x, y) => {
            let t = seq![x, y];
            assert(t.len() == 2);
            assert(t != "unset"@ && t != "set"@);
            assert(t[0] == x && t[1] == y);
        },
        _ => {},
    }
}

/// Reading is a normalization: a value read from anything, written, and read again is the value
/// read the first time. This is what lets a retired spelling be read once and never propagated.
pub proof fn law_reading_a_spelling_changes_nothing(text: Seq<char>)
    ensures
        suitability_reading(suitability_spelling(suitability_reading(text))) == suitability_reading(text),
        copies_reading(copies_spelling(copies_reading(text))) == copies_reading(text),
        added_reading(added_spelling(added_reading(text))) == added_reading(text),
        versions_reading(versions_spelling(versions_reading(text))) == versions_reading(text),
        favorited_reading(favorited_spelling(favorited_reading(text))) == favorited_reading(text),
        language_reading(language_spelling(language_reading(text))) == language_reading(text),
        initial_reading(initial_spelling(initial_reading(text))) == initial_reading(text),
{
    law_a_spelling_reads_back_as_itself(
        suitability_reading(text),
        copies_reading(text),
        added_reading(text),
        versions_reading(text),
        favorited_reading(text),
        language_reading(text),
    );
    reveal_strlit("");
    reveal_strlit("0-9");
    reveal_strlit("#");
    let i = initial_reading(text);
    match i {
        Initial::Letter(c) => {
            assert(seq![c].len() == 1);
            assert(seq![c][0] == c);
        },
        _ => {},
    }
}

/// **Each value the bar offers is read from its own spelling and from nothing else**: `8-10` is the
/// high band, `5-7` the middle one, `0-4` the low one; `1`, `2-10`, `10+` and `2+` the copies
/// buckets; `1d`, `7d`, `30d` and `30d+` the ages; `in` (or `1`) and `out` the filed settings;
/// `all` every version. Any other text narrows by nothing.
pub proof fn law_each_value_is_read_from_its_own_spelling(s: Seq<char>)
    ensures
        (suitability_reading(s) == SuitabilityFilter::High) == (s == "8-10"@),
        (suitability_reading(s) == SuitabilityFilter::Middle) == (s == "5-7"@),
        (suitability_reading(s) == SuitabilityFilter::Low) == (s == "0-4"@),
        (copies_reading(s) == CopiesFilter::One) == (s == "1"@),
        (copies_reading(s) == CopiesFilter::TwoToTen) == (s == "2-10"@),
        (copies_reading(s) == CopiesFilter::MoreThanTen) == (s == "10+"@),
        (copies_reading(s) == CopiesFilter::AtLeastTwo) == (s == "2+"@),
        (added_reading(s) == AddedFilter::LastDay) == (s == "1d"@),
        (added_reading(s) == AddedFilter::LastWeek) == (s == "7d"@),
        (added_reading(s) == AddedFilter::LastMonth) == (s == "30d"@),
        (added_reading(s) == AddedFilter::Older) == (s == "30d+"@),
        (favorited_reading(s) == FavoritedFilter::In) == (s == "in"@ || s == "1"@),
        (favorited_reading(s) == FavoritedFilter::Out) == (s == "out"@),
        (versions_reading(s) == VersionsFilter::All) == (s == "all"@),
{
    reveal_strlit("8-10");
    reveal_strlit("5-7");
    reveal_strlit("0-4");
    reveal_strlit("1");
    reveal_strlit("2-10");
    reveal_strlit("10+");
    reveal_strlit("2+");
    reveal_strlit("1d");
    reveal_strlit("7d");
    reveal_strlit("30d");
    reveal_strlit("30d+");
    reveal_strlit("in");
    reveal_strlit("out");
    reveal_strlit("all");
    assert("8-10"@ != "5-7"@) by { assert("8-10"@.len() != "5-7"@.len()); }
    assert("8-10"@ != "0-4"@) by { assert("8-10"@.len() != "0-4"@.len()); }
    assert("5-7"@ != "0-4"@) by { assert("5-7"@[0] != "0-4"@[0]); }
    assert("1"@ != "2-10"@) by { assert("1"@.len() != "2-10"@.len()); }
    assert("1"@ != "10+"@) by { assert("1"@.len() != "10+"@.len()); }
    assert("1"@ != "2+"@) by { assert("1"@.len() != "2+"@.len()); }
    assert("2-10"@ != "10+"@) by { assert("2-10"@.len() != "10+"@.len()); }
    assert("2-10"@ != "2+"@) by { assert("2-10"@.len() != "2+"@.len()); }
    assert("10+"@ != "2+"@) by { assert("10+"@.len() != "2+"@.len()); }
    assert("1d"@ != "7d"@) by { assert("1d"@[0] != "7d"@[0]); }
    assert("1d"@ != "30d"@) by { assert("1d"@.len() != "30d"@.len()); }
    assert("1d"@ != "30d+"@) by { assert("1d"@.len() != "30d+"@.len()); }
    assert("7d"@ != "30d"@) by { assert("7d"@.len() != "30d"@.len()); }
    assert("7d"@ != "30d+"@) by { assert("7d"@.len() != "30d+"@.len()); }
    assert("30d"@ != "30d+"@) by { assert("30d"@.len() != "30d+"@.len()); }
    assert("in"@ != "out"@) by { assert("in"@.len() != "out"@.len()); }
    assert("1"@ != "out"@) by { assert("1"@.len() != "out"@.len()); }
}

// -- tags ----------------------------------------------------------------------------------

/// A tag as it is compared: trimmed, and ASCII letters lower case.
pub open spec fn folded_tag(s: Seq<char>) -> Seq<char> {
    trim(s).map_values(|c: char| ascii_lower(c))
}

/// Each of a list of texts in strictly increasing order, so nothing occurs twice.
pub open spec fn strictly_sorted(s: Seq<Seq<char>>) -> bool {
    forall|i: int, j: int| 0 <= i < j < s.len() ==> chars_lt(#[trigger] s[i], #[trigger] s[j])
}

/// The tags a comma-joined list names: every piece folded, the empty ones dropped.
pub open spec fn named_tags(list: Seq<char>) -> Set<Seq<char>> {
    Set::new(
        |t: Seq<char>|
            t.len() > 0 && exists|i: int|
                0 <= i < split_on(list, ',').len() && #[trigger] folded_tag(split_on(list, ',')[i]) == t,
    )
}

/// The tag one text names, if folding leaves anything of it. A tag never holds a comma, which is
/// what lets a list of them travel joined by commas, so a text with one names no tag.
pub open spec fn tag_named(s: Seq<char>) -> Option<Seq<char>> {
    if folded_tag(s).len() > 0 && !folded_tag(s).contains(',') {
        Some(folded_tag(s))
    } else {
        None
    }
}

/// Views of a list of character lists.
pub open spec fn texts(v: Seq<Vec<char>>) -> Seq<Seq<char>> {
    v.map_values(|t: Vec<char>| t@)
}

fn fold_tag(v: &[char]) -> (out: Vec<char>)
    ensures
        out@ == folded_tag(v@),
{
    let t = trim_chars(v);
    let mut out: Vec<char> = Vec::new();
    let mut i: usize = 0;
    while i < t.len()
        invariant
            i <= t@.len(),
            t@ == trim(v@),
            out@ == t@.take(i as int).map_values(|c: char| ascii_lower(c)),
        decreases t@.len() - i,
    {
        let c = t[i];
        let n = c as u32;
        let lower = if 65 <= n && n <= 90 {
            ((n + 32) as u8) as char
        } else {
            c
        };
        proof {
            assert(lower == ascii_lower(c));
        }
        out.push(lower);
        proof {
            assert(t@.take(i + 1).map_values(|c: char| ascii_lower(c)) =~= t@.take(i as int).map_values(
                |c: char| ascii_lower(c),
            ).push(ascii_lower(c)));
        }
        i = i + 1;
    }
    proof {
        assert(t@.take(t@.len() as int) =~= t@);
    }
    out
}

/// Puts a tag into a strictly sorted list, unless it is there already.
fn insert_tag(list: &mut Vec<Vec<char>>, tag: Vec<char>)
    requires
        strictly_sorted(texts(old(list)@)),
    ensures
        strictly_sorted(texts(final(list)@)),
        texts(final(list)@).to_set() == texts(old(list)@).to_set().insert(tag@),
{
    let ghost before = texts(list@);
    let mut i: usize = 0;
    while i < list.len() && chars_less(list[i].as_slice(), tag.as_slice())
        invariant
            i <= list@.len(),
            before == texts(list@),
            strictly_sorted(before),
            forall|j: int| 0 <= j < i ==> chars_lt(#[trigger] before[j], tag@),
        decreases list@.len() - i,
    {
        i = i + 1;
    }
    if i < list.len() && same_chars(list[i].as_slice(), tag.as_slice()) {
        proof {
            assert(before[i as int] == tag@);
            assert(before.to_set().insert(tag@) =~= before.to_set());
        }
        return;
    }
    proof {
        if i < before.len() {
            crate::text::lemma_chars_lt_total(before[i as int], tag@);
            assert(chars_lt(tag@, before[i as int]));
        }
    }
    list.insert(i, tag);
    proof {
        let after = texts(list@);
        assert(after =~= before.take(i as int).push(tag@) + before.skip(i as int));
        assert forall|a: int, b: int| 0 <= a < b < after.len() implies chars_lt(
            #[trigger] after[a],
            #[trigger] after[b],
        ) by {
            if b < i {
                assert(after[a] == before[a] && after[b] == before[b]);
            } else if b == i {
                assert(after[b] == tag@);
                assert(after[a] == before[a]);
            } else if a < i {
                assert(after[a] == before[a]);
                assert(after[b] == before[b - 1]);
                assert(chars_lt(before[a], tag@));
                crate::text::lemma_chars_lt_total(before[a], before[b - 1]);
                if i < before.len() {
                    assert(chars_lt(tag@, before[i as int]));
                    if b - 1 > i {
                        assert(chars_lt(before[i as int], before[b - 1]));
                        crate::text::lemma_chars_lt_transitive(tag@, before[i as int], before[b - 1]);
                    }
                    crate::text::lemma_chars_lt_transitive(before[a], tag@, before[b - 1]);
                }
            } else if a == i {
                assert(after[a] == tag@);
                assert(after[b] == before[b - 1]);
                if b - 1 > i {
                    assert(chars_lt(before[i as int], before[b - 1]));
                    crate::text::lemma_chars_lt_transitive(tag@, before[i as int], before[b - 1]);
                }
            } else {
                assert(after[a] == before[a - 1]);
                assert(after[b] == before[b - 1]);
            }
        }
        assert forall|t: Seq<char>| after.to_set().contains(t) == before.to_set().insert(tag@).contains(t) by {
            if after.to_set().contains(t) {
                let k = choose|k: int| 0 <= k < after.len() && after[k] == t;
                if k < i {
                    assert(before[k] == t);
                } else if k > i {
                    assert(before[k - 1] == t);
                }
            }
            if before.to_set().contains(t) {
                let k = choose|k: int| 0 <= k < before.len() && before[k] == t;
                if k < i {
                    assert(after[k] == t);
                } else {
                    assert(after[k + 1] == t);
                }
            }
            if t == tag@ {
                assert(after[i as int] == t);
            }
        }
        assert(after.to_set() =~= before.to_set().insert(tag@));
    }
}

fn strings_of(list: &Vec<Vec<char>>) -> (out: Vec<String>)
    ensures
        out@.map_values(|s: String| s@) == texts(list@),
{
    let mut out: Vec<String> = Vec::new();
    let mut i: usize = 0;
    while i < list.len()
        invariant
            i <= list@.len(),
            out@.map_values(|s: String| s@) == texts(list@).take(i as int),
        decreases list@.len() - i,
    {
        let ghost before = out@.map_values(|s: String| s@);
        out.push(string_of(list[i].as_slice()));
        proof {
            assert(out@.map_values(|s: String| s@) =~= before.push(list@[i as int]@));
            assert(texts(list@).take(i + 1) =~= texts(list@).take(i as int).push(list@[i as int]@));
        }
        i = i + 1;
    }
    proof {
        assert(texts(list@).take(list@.len() as int) =~= texts(list@));
    }
    out
}

fn sorted_tags(list: &str) -> (out: Vec<Vec<char>>)
    ensures
        strictly_sorted(texts(out@)),
        texts(out@).to_set() == named_tags(list@),
{
    let v = chars_of(list);
    let pieces = split_chars(v.as_slice(), ',');
    let ghost ps = texts(pieces@);
    let mut out: Vec<Vec<char>> = Vec::new();
    let mut i: usize = 0;
    proof {
        assert(texts(out@).to_set() =~= Set::<Seq<char>>::empty());
    }
    while i < pieces.len()
        invariant
            i <= pieces@.len(),
            ps == texts(pieces@),
            ps == split_on(v@, ','),
            v@ == list@,
            strictly_sorted(texts(out@)),
            texts(out@).to_set() == Set::new(
                |t: Seq<char>| t.len() > 0 && exists|k: int| 0 <= k < i && #[trigger] folded_tag(ps[k]) == t,
            ),
        decreases pieces@.len() - i,
    {
        let t = fold_tag(pieces[i].as_slice());
        let ghost old_set = texts(out@).to_set();
        proof {
            assert(ps[i as int] == pieces@[i as int]@);
        }
        if t.len() > 0 {
            insert_tag(&mut out, t);
        }
        proof {
            let now = Set::new(
                |tt: Seq<char>| tt.len() > 0 && exists|k: int| 0 <= k < i + 1 && #[trigger] folded_tag(ps[k]) == tt,
            );
            assert forall|tt: Seq<char>| texts(out@).to_set().contains(tt) == now.contains(tt) by {
                if now.contains(tt) {
                    let k = choose|k: int| 0 <= k < i + 1 && #[trigger] folded_tag(ps[k]) == tt;
                    if k < i {
                        assert(old_set.contains(tt));
                    }
                }
                if old_set.contains(tt) {
                    let k = choose|k: int| 0 <= k < i && #[trigger] folded_tag(ps[k]) == tt;
                    assert(now.contains(tt));
                }
            }
            assert(texts(out@).to_set() =~= now);
        }
        i = i + 1;
    }
    proof {
        assert(texts(out@).to_set() =~= named_tags(list@));
    }
    out
}

/// The tags a comma-joined list names: folded, sorted, each once.
pub fn tag_list(list: &str) -> (tags: Vec<String>)
    ensures
        strictly_sorted(tags@.map_values(|s: String| s@)),
        tags@.map_values(|s: String| s@).to_set() == named_tags(list@),
{
    let sorted = sorted_tags(list);
    strings_of(&sorted)
}

/// The tags a list names with one more tag merged in: folded, sorted, each once.
pub fn tags_with(list: &str, added: &str) -> (tags: Vec<String>)
    ensures
        strictly_sorted(tags@.map_values(|s: String| s@)),
        tags@.map_values(|s: String| s@).to_set() == match tag_named(added@) {
            Some(t) => named_tags(list@).insert(t),
            None => named_tags(list@),
        },
{
    let mut sorted = sorted_tags(list);
    let av = chars_of(added);
    let t = fold_tag(av.as_slice());
    if t.len() > 0 && !contains_char(t.as_slice(), ',') {
        insert_tag(&mut sorted, t);
    }
    strings_of(&sorted)
}

/// A sorted list with no repeats is fixed by what it holds: two such lists holding the same tags
/// are the same list, so a tag list's contents say everything about it.
pub proof fn law_a_sorted_tag_list_is_fixed_by_its_tags(a: Seq<Seq<char>>, b: Seq<Seq<char>>)
    requires
        strictly_sorted(a),
        strictly_sorted(b),
        a.to_set() == b.to_set(),
    ensures
        a == b,
    decreases a.len() + b.len(),
{
    if a.len() == 0 || b.len() == 0 {
        if a.len() > 0 {
            assert(a.to_set().contains(a[0]));
        }
        if b.len() > 0 {
            assert(b.to_set().contains(b[0]));
        }
        assert(a =~= b);
    } else {
        // The smallest element of each is the first.
        assert(a.to_set().contains(a[0]));
        assert(b.to_set().contains(b[0]));
        let ka = choose|k: int| 0 <= k < b.len() && b[k] == a[0];
        let kb = choose|k: int| 0 <= k < a.len() && a[k] == b[0];
        if ka > 0 {
            assert(chars_lt(b[0], b[ka]));
            if kb > 0 {
                assert(chars_lt(a[0], a[kb]));
                crate::text::lemma_chars_lt_total(a[0], b[0]);
            } else {
                crate::text::lemma_chars_lt_irreflexive(a[0]);
            }
        }
        if kb > 0 && ka == 0 {
            crate::text::lemma_chars_lt_irreflexive(b[0]);
        }
        assert(a[0] == b[0]);
        let ra = a.drop_first();
        let rb = b.drop_first();
        assert forall|t: Seq<char>| ra.to_set().contains(t) == rb.to_set().contains(t) by {
            if ra.to_set().contains(t) {
                let k = choose|k: int| 0 <= k < ra.len() && ra[k] == t;
                assert(a[k + 1] == t);
                assert(chars_lt(a[0], t));
                crate::text::lemma_chars_lt_irreflexive(t);
                assert(b.to_set().contains(t));
                let j = choose|j: int| 0 <= j < b.len() && b[j] == t;
                assert(j != 0);
                assert(rb[j - 1] == t);
            }
            if rb.to_set().contains(t) {
                let k = choose|k: int| 0 <= k < rb.len() && rb[k] == t;
                assert(b[k + 1] == t);
                assert(chars_lt(b[0], t));
                crate::text::lemma_chars_lt_irreflexive(t);
                assert(a.to_set().contains(t));
                let j = choose|j: int| 0 <= j < a.len() && a[j] == t;
                assert(j != 0);
                assert(ra[j - 1] == t);
            }
        }
        assert(ra.to_set() =~= rb.to_set());
        law_a_sorted_tag_list_is_fixed_by_its_tags(ra, rb);
        assert(a =~= seq![a[0]] + ra);
        assert(b =~= seq![b[0]] + rb);
    }
}

} // verus!
