//! Which of several files of one song to play first.
//!
//! A corpus holds four to eight files of one song and the suitability ties across most of them.
//! What separates two copies is finer than the 0–10: how the words are marked, whether they land on
//! the music, how much arrangement there is behind them, and whether the text was decoded or
//! guessed at. All of that is already written down by a scan, so ordering a handful of ticked songs
//! reads no files.
//!
//! **The number this produces is a position, not a rating.**

use vstd::prelude::*;
use vstd::relations::{sorted_by, total_ordering};

use crate::text::{
    chars_less, chars_lt, chars_of, lemma_chars_lt_irreflexive, lemma_chars_lt_total,
    lemma_chars_lt_transitive, str_eq, string_of,
};

verus! {

broadcast use vstd::seq_lib::group_to_multiset_ensures;

/// What decides one song's place in a quality hint.
///
/// Every field is a column a scan wrote. `None` means *no scan has said*, which every key treats
/// as the worst value it could hold: a row whose analysis is missing is not a row to play first.
#[derive(Debug, Clone)]
pub struct Key {
    /// Content hash, which is also the last tie-break.
    pub id: String,
    /// The automatic suitability, 0 to 10.
    pub suitability: Option<u8>,
    /// The lyrics component of it, 0 to 3.
    pub lyrics: Option<u8>,
    /// The sync component of it, 0 to 3.
    pub sync: Option<u8>,
    /// The arrangement component of it, 0 to 2.
    pub arrangement: Option<u8>,
    /// How many channels sound, drums included.
    pub channel_count: Option<u32>,
    /// `declared`, `utf8`, `detected` or `fallback`, as the scan wrote it.
    pub encoding_source: Option<String>,
    /// How many files on disk are byte-identical copies of this.
    pub file_count: u32,
}

/// Everything that decides an order, largest first.
pub type Rank = (int, int, int, int, int, int, int);

/// One song as the order sees it: its rank and its id.
pub type Ranked = (Rank, Seq<char>);

/// How much the lyric text can be trusted, best first: a declared encoding and valid UTF-8 are
/// both certain, detection can be wrong, and the fallback is what is left when nothing applied.
pub open spec fn encoding_rank_of(source: Option<Seq<char>>) -> int {
    match source {
        Some(s) => if s == "declared"@ || s == "utf8"@ {
            3
        } else if s == "detected"@ {
            2
        } else if s == "fallback"@ {
            1
        } else {
            0
        },
        None => 0,
    }
}

pub open spec fn or_zero_u8(v: Option<u8>) -> int {
    match v {
        Some(n) => n as int,
        None => 0,
    }
}

pub open spec fn or_zero_u32(v: Option<u32>) -> int {
    match v {
        Some(n) => n as int,
        None => 0,
    }
}

pub open spec fn source_of(k: Key) -> Option<Seq<char>> {
    match k.encoding_source {
        Some(s) => Some(s@),
        None => None,
    }
}

/// The rank of one key: suitability, lyrics, sync, arrangement, channels, encoding, copies.
pub open spec fn rank_of(k: Key) -> Rank {
    (
        or_zero_u8(k.suitability),
        or_zero_u8(k.lyrics),
        or_zero_u8(k.sync),
        or_zero_u8(k.arrangement),
        or_zero_u32(k.channel_count),
        encoding_rank_of(source_of(k)),
        k.file_count as int,
    )
}

/// `x` is below `y`, comparing the seven values in turn.
pub open spec fn rank_lt(x: Rank, y: Rank) -> bool {
    x.0 < y.0 || (x.0 == y.0 && (x.1 < y.1 || (x.1 == y.1 && (x.2 < y.2 || (x.2 == y.2 && (x.3
        < y.3 || (x.3 == y.3 && (x.4 < y.4 || (x.4 == y.4 && (x.5 < y.5 || (x.5 == y.5 && x.6
        < y.6)))))))))))
}

pub open spec fn ranked(k: Key) -> Ranked {
    (rank_of(k), k.id@)
}

/// `x` may stand before `y`: a higher rank first, and between equal ranks the smaller id first.
pub open spec fn goes_first(x: Ranked, y: Ranked) -> bool {
    rank_lt(y.0, x.0) || (x.0 == y.0 && !chars_lt(y.1, x.1))
}

pub open spec fn first_order() -> spec_fn(Ranked, Ranked) -> bool {
    |x: Ranked, y: Ranked| goes_first(x, y)
}

/// Every key as the order sees it.
pub open spec fn ranked_keys(keys: Seq<Key>) -> Seq<Ranked> {
    keys.map_values(|k: Key| ranked(k))
}

/// The ids of ranked songs, in their order.
pub open spec fn ids_of(rs: Seq<Ranked>) -> Seq<Seq<char>> {
    rs.map_values(|r: Ranked| r.1)
}

/// What a list of strings says, in order.
pub open spec fn string_views(v: Seq<String>) -> Seq<Seq<char>> {
    v.map_values(|s: String| s@)
}

/// The ids of the keys, best first: sorted by [`goes_first`].
pub open spec fn hint_order(keys: Seq<Key>) -> Seq<Seq<char>> {
    ids_of(ranked_keys(keys).sort_by(first_order()))
}

/// [`goes_first`] is a total order.
pub proof fn lemma_first_order_total()
    ensures
        total_ordering(first_order()),
{
    let le = first_order();
    assert forall|x: Ranked| #[trigger] le(x, x) by {
        lemma_chars_lt_irreflexive(x.1);
    }
    assert forall|x: Ranked, y: Ranked| #[trigger] le(x, y) && #[trigger] le(y, x) implies x == y by {
        lemma_chars_lt_total(x.1, y.1);
    }
    assert forall|x: Ranked, y: Ranked, z: Ranked| #[trigger] le(x, y) && #[trigger] le(y, z) implies le(x, z) by {
        lemma_chars_lt_total(x.1, y.1);
        lemma_chars_lt_total(y.1, z.1);
        lemma_chars_lt_total(x.1, z.1);
        if x.0 == y.0 && y.0 == z.0 && chars_lt(z.1, x.1) {
            if chars_lt(y.1, x.1) {
            } else if x.1 == y.1 {
            } else {
                lemma_chars_lt_transitive(z.1, x.1, y.1);
            }
        }
    }
    assert forall|x: Ranked, y: Ranked| #[trigger] le(x, y) || #[trigger] le(y, x) by {
        lemma_chars_lt_total(x.1, y.1);
    }
}

/// Mapping keeps two sequences holding the same elements holding the same elements.
pub proof fn lemma_map_keeps_multiset<A, B>(a: Seq<A>, b: Seq<A>, f: spec_fn(A) -> B)
    requires
        a.to_multiset() == b.to_multiset(),
    ensures
        a.map_values(f).to_multiset() == b.map_values(f).to_multiset(),
    decreases a.len(),
{
    broadcast use vstd::multiset::group_multiset_axioms;

    if a.len() == 0 {
        assert(a.to_multiset().len() == a.len());
        assert(b.to_multiset().len() == b.len());
        assert(b.len() == 0);
        assert(a.map_values(f) =~= Seq::<B>::empty());
        assert(b.map_values(f) =~= Seq::<B>::empty());
    } else {
        let x = a.last();
        let rest = a.drop_last();
        assert(rest.push(x) =~= a);
        assert(b.to_multiset().count(x) > 0);
        assert(b.contains(x));
        let i = choose|i: int| 0 <= i < b.len() && b[i] == x;
        assert(rest.to_multiset() =~= a.to_multiset().remove(x));
        assert(b.remove(i).to_multiset() =~= b.to_multiset().remove(x));
        lemma_map_keeps_multiset(rest, b.remove(i), f);
        assert(a.map_values(f) =~= rest.map_values(f).push(f(x)));
        assert(b.map_values(f).remove(i) =~= b.remove(i).map_values(f));
        assert(b.map_values(f)[i] == f(x));
        assert(b.map_values(f).remove(i).to_multiset() =~= b.map_values(f).to_multiset().remove(
            f(x),
        ));
        assert(b.map_values(f).to_multiset().count(f(x)) > 0) by {
            assert(b.map_values(f).contains(f(x)));
        }
        assert(b.map_values(f).to_multiset() =~= b.map_values(f).to_multiset().remove(f(x)).insert(
            f(x),
        ));
    }
}

/// **The same songs give the same order whichever way they arrive.** Pressing the button twice
/// does not reshuffle the badges.
pub proof fn law_order_ignores_arrival(a: Seq<Key>, b: Seq<Key>)
    requires
        a.to_multiset() == b.to_multiset(),
    ensures
        hint_order(a) == hint_order(b),
{
    lemma_map_keeps_multiset(a, b, |k: Key| ranked(k));
    lemma_first_order_total();
    let ra = ranked_keys(a);
    let rb = ranked_keys(b);
    ra.lemma_sort_by_ensures(first_order());
    rb.lemma_sort_by_ensures(first_order());
    vstd::seq_lib::lemma_sorted_unique(ra.sort_by(first_order()), rb.sort_by(first_order()), first_order());
}

/// **The order names every ticked song once, best first.** Its ids are the keys' ids, and of any
/// two, the earlier one's key goes first.
pub proof fn law_order_is_the_keys_sorted(keys: Seq<Key>)
    ensures
        exists|sorted: Seq<Ranked>|
            #![trigger sorted.to_multiset()]
            sorted.to_multiset() == ranked_keys(keys).to_multiset() && sorted_by(
                sorted,
                first_order(),
            ) && hint_order(keys) == ids_of(sorted),
{
    lemma_first_order_total();
    let rs = ranked_keys(keys);
    rs.lemma_sort_by_ensures(first_order());
    let sorted = rs.sort_by(first_order());
    assert(sorted.to_multiset() == rs.to_multiset());
}

/// Whether a key's encoding source is written as `name`.
pub open spec fn source_is(k: Key, name: Seq<char>) -> bool {
    k.encoding_source matches Some(s) && s@ == name
}

/// Whether two keys agree on everything the order reads but how their text was decoded.
pub open spec fn alike_but_encoding(x: Key, y: Key) -> bool {
    &&& x.suitability == y.suitability
    &&& x.lyrics == y.lyrics
    &&& x.sync == y.sync
    &&& x.arrangement == y.arrangement
    &&& x.channel_count == y.channel_count
    &&& x.file_count == y.file_count
}

/// Two songs of which the first strictly goes first are put in that order however they arrive.
proof fn lemma_two_in_order(x: Key, y: Key)
    requires
        goes_first(ranked(x), ranked(y)),
        !goes_first(ranked(y), ranked(x)),
    ensures
        hint_order(seq![x, y]) == seq![x.id@, y.id@],
        hint_order(seq![y, x]) == seq![x.id@, y.id@],
{
    broadcast use vstd::multiset::group_multiset_axioms;
    lemma_first_order_total();
    let le = first_order();
    let want = seq![ranked(x), ranked(y)];
    assert(sorted_by(want, le)) by {
        assert forall|i: int, j: int| 0 <= i < j < want.len() implies le(want[i], want[j]) by {}
    }
    let a = ranked_keys(seq![x, y]);
    let b = ranked_keys(seq![y, x]);
    assert(a =~= want);
    assert(b =~= seq![ranked(y), ranked(x)]);
    assert(want.to_multiset() =~= seq![ranked(y), ranked(x)].to_multiset()) by {
        assert(want =~= seq![ranked(x)].push(ranked(y)));
        assert(seq![ranked(y), ranked(x)] =~= seq![ranked(y)].push(ranked(x)));
        assert(seq![ranked(x)] =~= Seq::<Ranked>::empty().push(ranked(x)));
        assert(seq![ranked(y)] =~= Seq::<Ranked>::empty().push(ranked(y)));
    }
    a.lemma_sort_by_ensures(le);
    b.lemma_sort_by_ensures(le);
    vstd::seq_lib::lemma_sorted_unique(a.sort_by(le), want, le);
    vstd::seq_lib::lemma_sorted_unique(b.sort_by(le), want, le);
    assert(ids_of(want) =~= seq![x.id@, y.id@]);
}

/// **How far a lyric's text can be trusted decides between copies that tie on everything else**:
/// an encoding the file declared, or valid UTF-8, goes before one that was detected; a detected
/// one before the guess the fallback makes; and that guess before a copy with no encoding said.
/// Two copies trusted alike are put in the order of their ids.
pub proof fn law_a_more_trusted_encoding_goes_first(x: Key, y: Key)
    requires
        alike_but_encoding(x, y),
    ensures
        (source_is(x, "declared"@) || source_is(x, "utf8"@)) && (source_is(y, "detected"@) || source_is(
            y,
            "fallback"@,
        ) || y.encoding_source is None) ==> hint_order(seq![x, y]) == seq![x.id@, y.id@]
            && hint_order(seq![y, x]) == seq![x.id@, y.id@],
        source_is(x, "detected"@) && (source_is(y, "fallback"@) || y.encoding_source is None)
            ==> hint_order(seq![x, y]) == seq![x.id@, y.id@] && hint_order(seq![y, x]) == seq![
            x.id@,
            y.id@,
        ],
        source_is(x, "fallback"@) && y.encoding_source is None ==> hint_order(seq![x, y]) == seq![
            x.id@,
            y.id@,
        ] && hint_order(seq![y, x]) == seq![x.id@, y.id@],
        source_is(x, "declared"@) && source_is(y, "utf8"@) && chars_lt(x.id@, y.id@) ==> hint_order(
            seq![x, y],
        ) == seq![x.id@, y.id@] && hint_order(seq![y, x]) == seq![x.id@, y.id@],
{
    reveal_strlit("declared");
    reveal_strlit("utf8");
    reveal_strlit("detected");
    reveal_strlit("fallback");
    let trusted = (source_is(x, "declared"@) || source_is(x, "utf8"@)) && (source_is(y, "detected"@)
        || source_is(y, "fallback"@) || y.encoding_source is None);
    let detected = source_is(x, "detected"@) && (source_is(y, "fallback"@) || y.encoding_source is None);
    let guessed = source_is(x, "fallback"@) && y.encoding_source is None;
    let tied = source_is(x, "declared"@) && source_is(y, "utf8"@) && chars_lt(x.id@, y.id@);
    let d = "declared"@;
    let u = "utf8"@;
    let t = "detected"@;
    let f = "fallback"@;
    assert(d != u && d != t && d != f && u != t && u != f && t != f) by {
        assert(d.len() != u.len());
        assert(d[2] != t[2]);
        assert(d[0] != f[0]);
        assert(u.len() != t.len());
        assert(u.len() != f.len());
        assert(t[0] != f[0]);
    }
    let ex = encoding_rank_of(source_of(x));
    let ey = encoding_rank_of(source_of(y));
    assert(source_is(x, d) || source_is(x, u) ==> ex == 3);
    assert(source_is(x, t) ==> ex == 2);
    assert(source_is(x, f) ==> ex == 1);
    assert(source_is(y, d) || source_is(y, u) ==> ey == 3);
    assert(source_is(y, t) ==> ey == 2);
    assert(source_is(y, f) ==> ey == 1);
    assert(y.encoding_source is None ==> ey == 0);
    if trusted || detected || guessed || tied {
        if tied {
            lemma_chars_lt_irreflexive(x.id@);
            lemma_chars_lt_total(x.id@, y.id@);
        }
        lemma_two_in_order(x, y);
    }
}

/// Whether a scan said a larger value for `a` than for `b`, where none said stands as zero.
pub open spec fn said_more_u8(a: Option<u8>, b: Option<u8>) -> bool {
    a matches Some(n) && ((b is None && n > 0) || (b matches Some(m) && m < n))
}

/// Whether a scan said a larger count for `a` than for `b`, where none said stands as zero.
pub open spec fn said_more_u32(a: Option<u32>, b: Option<u32>) -> bool {
    a matches Some(n) && ((b is None && n > 0) || (b matches Some(m) && m < n))
}

/// **The order weighs what a scan wrote in turn**: a higher suitability goes first whatever else
/// differs; between equal suitabilities better-marked lyrics; then better sync; then more
/// arrangement; then more channels sounding; and, between copies alike in all that and in their
/// encoding, the one with more files behind it; between copies alike in everything, the smaller
/// id. A value no scan has said counts as zero, the worst it could hold.
pub proof fn law_the_order_weighs_the_scan_in_turn(x: Key, y: Key)
    ensures
        said_more_u8(x.suitability, y.suitability) ==> hint_order(seq![x, y]) == seq![x.id@, y.id@]
            && hint_order(seq![y, x]) == seq![x.id@, y.id@],
        x.suitability == y.suitability && said_more_u8(x.lyrics, y.lyrics) ==> hint_order(seq![x, y])
            == seq![x.id@, y.id@] && hint_order(seq![y, x]) == seq![x.id@, y.id@],
        x.suitability == y.suitability && x.lyrics == y.lyrics && said_more_u8(x.sync, y.sync)
            ==> hint_order(seq![x, y]) == seq![x.id@, y.id@] && hint_order(seq![y, x]) == seq![
            x.id@,
            y.id@,
        ],
        x.suitability == y.suitability && x.lyrics == y.lyrics && x.sync == y.sync && said_more_u8(
            x.arrangement,
            y.arrangement,
        ) ==> hint_order(seq![x, y]) == seq![x.id@, y.id@] && hint_order(seq![y, x]) == seq![
            x.id@,
            y.id@,
        ],
        x.suitability == y.suitability && x.lyrics == y.lyrics && x.sync == y.sync && x.arrangement
            == y.arrangement && said_more_u32(x.channel_count, y.channel_count) ==> hint_order(
            seq![x, y],
        ) == seq![x.id@, y.id@] && hint_order(seq![y, x]) == seq![x.id@, y.id@],
        x.suitability == y.suitability && x.lyrics == y.lyrics && x.sync == y.sync && x.arrangement
            == y.arrangement && x.channel_count == y.channel_count && source_of(x) == source_of(y)
            && x.file_count > y.file_count ==> hint_order(seq![x, y]) == seq![x.id@, y.id@]
            && hint_order(seq![y, x]) == seq![x.id@, y.id@],
        alike_but_encoding(x, y) && source_of(x) == source_of(y) && chars_lt(x.id@, y.id@) ==> hint_order(
            seq![x, y],
        ) == seq![x.id@, y.id@] && hint_order(seq![y, x]) == seq![x.id@, y.id@],
{
    let rx = rank_of(x);
    let ry = rank_of(y);
    if rank_lt(ry, rx) {
        lemma_two_in_order(x, y);
    }
    if alike_but_encoding(x, y) && source_of(x) == source_of(y) && chars_lt(x.id@, y.id@) {
        lemma_chars_lt_irreflexive(x.id@);
        lemma_chars_lt_total(x.id@, y.id@);
        assert(rx == ry);
        lemma_two_in_order(x, y);
    }
}

/// A key as the sort holds it.
struct Entry {
    rank: (u8, u8, u8, u8, u32, u8, u32),
    id: Vec<char>,
}

spec fn entry_view(e: Entry) -> Ranked {
    (
        (
            e.rank.0 as int,
            e.rank.1 as int,
            e.rank.2 as int,
            e.rank.3 as int,
            e.rank.4 as int,
            e.rank.5 as int,
            e.rank.6 as int,
        ),
        e.id@,
    )
}

/// How much the lyric text can be trusted, best first.
fn encoding_rank(source: Option<&str>) -> (rank: u8)
    ensures
        rank as int == encoding_rank_of(
            match source {
                Some(s) => Some(s@),
                None => None,
            },
        ),
{
    match source {
        Some(s) => {
            if str_eq(s, "declared") || str_eq(s, "utf8") {
                3
            } else if str_eq(s, "detected") {
                2
            } else if str_eq(s, "fallback") {
                1
            } else {
                0
            }
        },
        None => 0,
    }
}

fn or_zero_8(v: Option<u8>) -> (n: u8)
    ensures
        n as int == or_zero_u8(v),
{
    match v {
        Some(n) => n,
        None => 0,
    }
}

fn or_zero_32(v: Option<u32>) -> (n: u32)
    ensures
        n as int == or_zero_u32(v),
{
    match v {
        Some(n) => n,
        None => 0,
    }
}

impl Key {
    /// Everything that decides an order, largest first, as one comparable tuple.
    fn rank(&self) -> (rank: (u8, u8, u8, u8, u32, u8, u32))
        ensures
            (
                rank.0 as int,
                rank.1 as int,
                rank.2 as int,
                rank.3 as int,
                rank.4 as int,
                rank.5 as int,
                rank.6 as int,
            ) == rank_of(*self),
    {
        let encoding = match &self.encoding_source {
            Some(s) => encoding_rank(Some(s.as_str())),
            None => encoding_rank(None),
        };
        (
            or_zero_8(self.suitability),
            or_zero_8(self.lyrics),
            or_zero_8(self.sync),
            or_zero_8(self.arrangement),
            or_zero_32(self.channel_count),
            encoding,
            self.file_count,
        )
    }
}

fn rank_less(x: &(u8, u8, u8, u8, u32, u8, u32), y: &(u8, u8, u8, u8, u32, u8, u32)) -> (less: bool)
    ensures
        less == rank_lt(
            (x.0 as int, x.1 as int, x.2 as int, x.3 as int, x.4 as int, x.5 as int, x.6 as int),
            (y.0 as int, y.1 as int, y.2 as int, y.3 as int, y.4 as int, y.5 as int, y.6 as int),
        ),
{
    x.0 < y.0 || (x.0 == y.0 && (x.1 < y.1 || (x.1 == y.1 && (x.2 < y.2 || (x.2 == y.2 && (x.3
        < y.3 || (x.3 == y.3 && (x.4 < y.4 || (x.4 == y.4 && (x.5 < y.5 || (x.5 == y.5 && x.6
        < y.6)))))))))))
}

/// Whether `x` may stand before `y`.
fn goes_before(x: &Entry, y: &Entry) -> (first: bool)
    ensures
        first == goes_first(entry_view(*x), entry_view(*y)),
{
    if rank_less(&y.rank, &x.rank) {
        true
    } else if !rank_less(&x.rank, &y.rank) {
        !chars_less(y.id.as_slice(), x.id.as_slice())
    } else {
        false
    }
}

spec fn entries_view(v: Seq<Entry>) -> Seq<Ranked> {
    v.map_values(|e: Entry| entry_view(e))
}

/// Puts one entry into a sorted list, after everything that may stand before it.
fn insert_sorted(sorted: &mut Vec<Entry>, x: Entry)
    requires
        sorted_by(entries_view(old(sorted)@), first_order()),
    ensures
        sorted_by(entries_view(final(sorted)@), first_order()),
        entries_view(final(sorted)@).to_multiset() == entries_view(old(sorted)@).to_multiset().insert(
            entry_view(x),
        ),
{
    proof {
        lemma_first_order_total();
    }
    let ghost before = entries_view(sorted@);
    let ghost xv = entry_view(x);
    let mut j = sorted.len();
    while j > 0
        invariant
            j <= sorted@.len(),
            entries_view(sorted@) == before,
            xv == entry_view(x),
            total_ordering(first_order()),
            forall|k: int| j <= k < before.len() ==> goes_first(xv, #[trigger] before[k]),
        ensures
            j <= sorted@.len(),
            j == 0 || goes_first(before[j - 1], xv),
            forall|k: int| j <= k < before.len() ==> goes_first(xv, #[trigger] before[k]),
        decreases j,
    {
        let first = goes_before(&sorted[j - 1], &x);
        proof {
            assert(before[j - 1] == entry_view(sorted@[j - 1]));
        }
        if first {
            break;
        }
        proof {
            let le = first_order();
            assert(le(xv, before[j - 1]) || le(before[j - 1], xv));
            assert(goes_first(xv, before[j - 1]));
        }
        j = j - 1;
    }
    sorted.insert(j, x);
    proof {
        let after = entries_view(sorted@);
        assert(after =~= before.insert(j as int, xv));
        let le = first_order();
        if j > 0 {
            assert(before[j - 1] == entry_view(sorted@[j - 1]));
            assert(le(before[j - 1], xv));
        }
        assert forall|p: int, q: int| 0 <= p < q < after.len() implies #[trigger] le(after[p], after[q]) by {
            if q < j {
                assert(le(before[p], before[q]));
            } else if q == j {
                assert(le(before[p], before[j - 1]));
                assert(le(before[j - 1], xv));
            } else if p < j {
                assert(le(before[p], before[j - 1]));
                assert(le(before[j - 1], xv));
                assert(le(xv, before[q - 1]));
            } else if p == j {
                assert(goes_first(xv, before[q - 1]));
            } else {
                assert(le(before[p - 1], before[q - 1]));
            }
        }
    }
}

/// Orders the keys, best first, and returns their ids.
///
/// **Every key is a column a scan measured, and the rating somebody typed is not one of them.**
/// The suitability first, then the three components that separate two copies of one song, then the
/// channel count, how the words were decoded, and how many copies there are. **The id is last,
/// and it is a promise rather than a preference**: the same ticks give the same order however
/// they arrived.
pub fn order(keys: Vec<Key>) -> (ids: Vec<String>)
    ensures
        string_views(ids@) == hint_order(keys@),
{
    proof {
        lemma_first_order_total();
    }
    let mut sorted: Vec<Entry> = Vec::new();
    let mut i: usize = 0;
    while i < keys.len()
        invariant
            i <= keys@.len(),
            sorted_by(entries_view(sorted@), first_order()),
            entries_view(sorted@).to_multiset() == ranked_keys(keys@.take(i as int)).to_multiset(),
        decreases keys@.len() - i,
    {
        let key = &keys[i];
        let entry = Entry { rank: key.rank(), id: chars_of(key.id.as_str()) };
        let ghost ev = entry_view(entry);
        assert(ev == ranked(keys@[i as int]));
        let ghost old_sorted = entries_view(sorted@);
        insert_sorted(&mut sorted, entry);
        proof {
            assert(entries_view(sorted@).to_multiset() == old_sorted.to_multiset().insert(ev));
            assert(ranked_keys(keys@.take(i + 1)) =~= ranked_keys(keys@.take(i as int)).push(ev));
        }
        i = i + 1;
    }
    let ghost all = ranked_keys(keys@);
    proof {
        assert(keys@.take(keys@.len() as int) =~= keys@);
        all.lemma_sort_by_ensures(first_order());
        vstd::seq_lib::lemma_sorted_unique(entries_view(sorted@), all.sort_by(first_order()), first_order());
    }
    let mut ids: Vec<String> = Vec::new();
    let mut k: usize = 0;
    while k < sorted.len()
        invariant
            k <= sorted@.len(),
            string_views(ids@) == ids_of(entries_view(sorted@).take(k as int)),
        decreases sorted@.len() - k,
    {
        let id = string_of(sorted[k].id.as_slice());
        let ghost old_ids = ids@;
        let ghost idv = id@;
        assert(idv == sorted@[k as int].id@);
        ids.push(id);
        proof {
            assert(entries_view(sorted@)[k as int].1 == sorted@[k as int].id@);
            assert(string_views(ids@) =~= string_views(old_ids).push(idv));
            assert(ids_of(entries_view(sorted@).take(k + 1)) =~= ids_of(entries_view(sorted@).take(k as int)).push(idv));
            assert(string_views(ids@) =~= ids_of(entries_view(sorted@).take(k + 1)));
        }
        k = k + 1;
    }
    proof {
        assert(entries_view(sorted@).take(sorted@.len() as int) =~= entries_view(sorted@));
    }
    ids
}

} // verus!
