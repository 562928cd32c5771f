//! Finding a song by the words it sings: the phrases a lyric can be looked for by, and the
//! full-text query that gathers candidates with them.
//!
//! A phrase is [`SHINGLE`] folded words that lie inside one run of kept lines. The query asks for
//! [`PROBES`] of them, spread across the song and, within each stretch, the one whose rarest word
//! the fewest songs hold.

use vstd::prelude::*;
use std::hash::{Hash, Hasher};
use crate::text::{chars_of, string_of, push_all, push_str, str_eq, replace_all, replace_chars};
use crate::browse::{joined, string_views, join_texts};
use crate::filter::texts;

verus! {

/// How many words in a row make one unit of comparison.
pub const SHINGLE: usize = 3;

/// How many phrases a search asks the index for.
pub const PROBES: usize = 12;

/// How many matches a search shows at most.
pub const SHOWN: usize = 100;

/// How many candidates the index is asked for before they are scored.
pub const CANDIDATES: u32 = 400;

// -- the phrases ---------------------------------------------------------------------------

/// The words of a list of runs, as characters.
pub open spec fn run_views(runs: Seq<Vec<String>>) -> Seq<Seq<Seq<char>>> {
    runs.map_values(|r: Vec<String>| string_views(r@))
}

/// What `std`'s `DefaultHasher`, made with `DefaultHasher::new`, finishes with after hashing a run
/// of words.
pub uninterp spec fn run_hash(run: Seq<Seq<char>>) -> u64;

/// Calls `Hash::hash` on a slice of words with a `DefaultHasher::new()` and returns `finish()`.
///
/// Claimed of it: the answer is [`run_hash`] of the words, a function of the words alone, since a
/// hasher made by `new` starts from the same keys every time. Which number it is, and whether two
/// different runs can share one, are not stated.
#[verifier::external_body]
fn hash_of(run: &[String]) -> (h: u64)
    ensures
        h == run_hash(string_views(run@)),
{
    let mut hasher = std::collections::hash_map::DefaultHasher::new();
    run.hash(&mut hasher);
    hasher.finish()
}

/// Every window of [`SHINGLE`] words in a run, in order.
pub open spec fn windows(run: Seq<Seq<char>>) -> Seq<Seq<Seq<char>>> {
    if run.len() < SHINGLE {
        seq![]
    } else {
        Seq::new((run.len() - SHINGLE + 1) as nat, |i: int| run.subrange(i, i + SHINGLE))
    }
}

/// Every window of every run, run after run.
pub open spec fn all_windows(runs: Seq<Seq<Seq<char>>>) -> Seq<Seq<Seq<char>>>
    decreases runs.len(),
{
    if runs.len() == 0 {
        seq![]
    } else {
        all_windows(runs.drop_last()) + windows(runs.last())
    }
}

/// The windows whose hash has not been seen before them, in order: a phrase the song repeats is
/// offered once.
pub open spec fn first_sightings(ws: Seq<Seq<Seq<char>>>) -> Seq<Seq<Seq<char>>>
    decreases ws.len(),
{
    if ws.len() == 0 {
        seq![]
    } else {
        let rest = first_sightings(ws.drop_last());
        if exists|i: int| 0 <= i < ws.len() - 1 && run_hash(ws[i]) == run_hash(ws.last()) {
            rest
        } else {
            rest.push(ws.last())
        }
    }
}

/// How many words the runs hold between them.
pub open spec fn word_count(runs: Seq<Seq<Seq<char>>>) -> nat
    decreases runs.len(),
{
    if runs.len() == 0 {
        0
    } else {
        word_count(runs.drop_last()) + runs.last().len()
    }
}

/// The phrases a lyric could be looked for by, given the runs of kept lines its words fall in: none
/// for a lyric with fewer than `min_words` words, else every window once, in the order sung.
pub open spec fn probes_of(runs: Seq<Seq<Seq<char>>>, min_words: nat) -> Seq<Seq<Seq<char>>> {
    if word_count(runs) < min_words {
        seq![]
    } else {
        first_sightings(all_windows(runs))
    }
}

/// The views of a list of phrases.
pub open spec fn phrase_views(ps: Seq<Vec<String>>) -> Seq<Seq<Seq<char>>> {
    run_views(ps)
}

fn copy_words(words: &[String]) -> (out: Vec<String>)
    ensures
        string_views(out@) == string_views(words@),
{
    let mut out: Vec<String> = Vec::new();
    let mut i: usize = 0;
    while i < words.len()
        invariant
            i <= words@.len(),
            string_views(out@) == string_views(words@).take(i as int),
        decreases words@.len() - i,
    {
        let ghost before = string_views(out@);
        out.push(words[i].clone());
        proof {
            assert(string_views(out@) =~= before.push(words@[i as int]@));
            assert(string_views(words@).take(i + 1) =~= string_views(words@).take(i as int).push(words@[i as int]@));
        }
        i = i + 1;
    }
    proof {
        assert(string_views(words@).take(words@.len() as int) =~= string_views(words@));
    }
    out
}

fn words_between(run: &Vec<String>, from: usize, to: usize) -> (out: Vec<String>)
    requires
        from <= to <= run@.len(),
    ensures
        string_views(out@) == string_views(run@).subrange(from as int, to as int),
{
    let mut out: Vec<String> = Vec::new();
    let mut i: usize = from;
    while i < to
        invariant
            from <= i <= to,
            to <= run@.len(),
            string_views(out@) == string_views(run@).subrange(from as int, i as int),
        decreases to - i,
    {
        let ghost before = string_views(out@);
        out.push(run[i].clone());
        proof {
            assert(string_views(out@) =~= before.push(run@[i as int]@));
            assert(string_views(run@).subrange(from as int, i + 1) =~= string_views(run@).subrange(
                from as int,
                i as int,
            ).push(run@[i as int]@));
        }
        i = i + 1;
    }
    out
}

/// The phrases a lyric could be looked for by, in the order it sings them, given the runs of kept
/// lines its folded words fall in. A phrase never crosses from one run into the next, a phrase the
/// song repeats is offered once, and a lyric with fewer than `min_words` words has none.
pub fn probes(runs: &[Vec<String>], min_words: usize) -> (ps: Vec<Vec<String>>)
    ensures
        phrase_views(ps@) == probes_of(run_views(runs@), min_words as nat),
{
    let ghost rs = run_views(runs@);
    let mut count: usize = 0;
    let mut r: usize = 0;
    while r < runs.len()
        invariant
            r <= runs@.len(),
            rs == run_views(runs@),
            count <= min_words,
            count as nat == word_count(rs.take(r as int)) || count == min_words && word_count(rs.take(r as int)) >= min_words,
        decreases runs@.len() - r,
    {
        proof {
            assert(rs.take(r + 1).drop_last() =~= rs.take(r as int));
            assert(rs.take(r + 1).last() == string_views(runs@[r as int]@));
        }
        let len = runs[r].len();
        if count < min_words {
            if len >= min_words - count {
                count = min_words;
            } else {
                count = count + len;
            }
        }
        r = r + 1;
    }
    proof {
        assert(rs.take(runs@.len() as int) =~= rs);
    }
    let mut out: Vec<Vec<String>> = Vec::new();
    if count < min_words {
        proof {
            assert(phrase_views(out@) =~= Seq::<Seq<Seq<char>>>::empty());
        }
        return out;
    }
    let mut seen: Vec<u64> = Vec::new();
    let mut ws: Vec<Vec<String>> = Vec::new();
    let mut r: usize = 0;
    while r < runs.len()
        invariant
            r <= runs@.len(),
            rs == run_views(runs@),
            phrase_views(ws@) == all_windows(rs.take(r as int)),
            phrase_views(out@) == first_sightings(phrase_views(ws@)),
            seen@.len() == ws@.len(),
            forall|k: int| 0 <= k < ws@.len() ==> seen@[k] == run_hash(#[trigger] phrase_views(ws@)[k]),
        decreases runs@.len() - r,
    {
        proof {
            assert(rs.take(r + 1).drop_last() =~= rs.take(r as int));
            assert(rs.take(r + 1).last() == string_views(runs@[r as int]@));
        }
        let run = &runs[r];
        let ghost rv = string_views(run@);
        let ghost base = phrase_views(ws@);
        if run.len() >= SHINGLE {
            let mut i: usize = 0;
            while i <= run.len() - SHINGLE
                invariant
                    run.len() >= SHINGLE,
                    i <= run@.len() - SHINGLE + 1,
                    rv == string_views(run@),
                    base.len() + i == ws@.len(),
                    phrase_views(ws@) == base + windows(rv).take(i as int),
                    phrase_views(out@) == first_sightings(phrase_views(ws@)),
                    seen@.len() == ws@.len(),
                    forall|k: int| 0 <= k < ws@.len() ==> seen@[k] == run_hash(#[trigger] phrase_views(ws@)[k]),
                decreases run@.len() + 1 - (i + SHINGLE),
            {
                let w = words_between(run, i, i + SHINGLE);
                let h = hash_of(w.as_slice());
                let ghost before_ws = phrase_views(ws@);
                let ghost wv = string_views(w@);
                let mut already = false;
                let mut k: usize = 0;
                while k < seen.len()
                    invariant
                        k <= seen@.len(),
                        seen@.len() == before_ws.len(),
                        forall|j: int| 0 <= j < before_ws.len() ==> seen@[j] == run_hash(#[trigger] before_ws[j]),
                        already == exists|j: int| 0 <= j < k && run_hash(before_ws[j]) == h,
                    decreases seen@.len() - k,
                {
                    if seen[k] == h {
                        already = true;
                    }
                    proof {
                        if seen@[k as int] == h {
                            assert(run_hash(before_ws[k as int]) == h);
                        }
                        if already {
                            if !(exists|j: int| 0 <= j < k && run_hash(before_ws[j]) == h) {
                                assert(run_hash(before_ws[k as int]) == h);
                            }
                        }
                    }
                    k = k + 1;
                }
                let ghost wv2 = wv;
                ws.push(copy_words(w.as_slice()));
                seen.push(h);
                proof {
                    let after = phrase_views(ws@);
                    assert(after =~= before_ws.push(wv2));
                    assert(after.drop_last() =~= before_ws);
                    assert(wv2 == rv.subrange(i as int, i + SHINGLE));
                    assert(windows(rv)[i as int] == wv2);
                    assert(windows(rv).take(i + 1) =~= windows(rv).take(i as int).push(wv2));
                    assert(after =~= base + windows(rv).take(i + 1));
                    assert((exists|j: int| 0 <= j < after.len() - 1 && run_hash(after[j]) == run_hash(after.last())) == already) by {
                        if already {
                            let j = choose|j: int| 0 <= j < before_ws.len() && run_hash(before_ws[j]) == h;
                            assert(after[j] == before_ws[j]);
                        }
                        if exists|j: int| 0 <= j < after.len() - 1 && run_hash(after[j]) == run_hash(after.last()) {
                            let j = choose|j: int| 0 <= j < after.len() - 1 && run_hash(after[j]) == run_hash(after.last());
                            assert(after[j] == before_ws[j]);
                        }
                    }
                    assert forall|q: int| 0 <= q < ws@.len() implies seen@[q] == run_hash(#[trigger] phrase_views(ws@)[q]) by {
                        if q < before_ws.len() {
                            assert(phrase_views(ws@)[q] == before_ws[q]);
                        }
                    }
                }
                if !already {
                    let ghost before_out = phrase_views(out@);
                    out.push(w);
                    proof {
                        assert(phrase_views(out@) =~= before_out.push(wv2));
                    }
                }
                i = i + 1;
            }
            proof {
                assert(windows(rv).take(i as int) =~= windows(rv));
            }
        } else {
            proof {
                assert(windows(rv) =~= Seq::<Seq<Seq<char>>>::empty());
                assert(base + windows(rv) =~= base);
            }
        }
        r = r + 1;
    }
    proof {
        assert(rs.take(runs@.len() as int) =~= rs);
    }
    out
}

// -- the words a caller asks the index about -----------------------------------------------

/// Every word of every phrase, in order.
pub open spec fn all_words(ps: Seq<Seq<Seq<char>>>) -> Seq<Seq<char>>
    decreases ps.len(),
{
    if ps.len() == 0 {
        seq![]
    } else {
        all_words(ps.drop_last()) + ps.last()
    }
}

/// Every distinct word the probes are built from, which is what a caller asks the index about:
/// each once, in the order first used.
pub fn probe_words(probes: &[Vec<String>]) -> (words: Vec<String>)
    ensures
        string_views(words@).no_duplicates(),
        string_views(words@).to_set() == all_words(phrase_views(probes@)).to_set(),
{
    let ghost ps = phrase_views(probes@);
    let mut words: Vec<String> = Vec::new();
    let mut i: usize = 0;
    while i < probes.len()
        invariant
            i <= probes@.len(),
            ps == phrase_views(probes@),
            string_views(words@).no_duplicates(),
            string_views(words@).to_set() == all_words(ps.take(i as int)).to_set(),
        decreases probes@.len() - i,
    {
        proof {
            assert(ps.take(i + 1).drop_last() =~= ps.take(i as int));
            assert(ps.take(i + 1).last() == string_views(probes@[i as int]@));
        }
        let phrase = &probes[i];
        let ghost pv = string_views(phrase@);
        let ghost base = all_words(ps.take(i as int));
        let mut j: usize = 0;
        while j < phrase.len()
            invariant
                j <= phrase@.len(),
                pv == string_views(phrase@),
                string_views(words@).no_duplicates(),
                string_views(words@).to_set() == (base + pv.take(j as int)).to_set(),
            decreases phrase@.len() - j,
        {
            let ghost before = string_views(words@);
            let w = &phrase[j];
            let mut found = false;
            let mut k: usize = 0;
            while k < words.len()
                invariant
                    k <= words@.len(),
                    before == string_views(words@),
                    found == exists|q: int| 0 <= q < k && before[q] == w@,
                decreases words@.len() - k,
            {
                if str_eq(words[k].as_str(), w.as_str()) {
                    found = true;
                }
                proof {
                    assert(before[k as int] == words@[k as int]@);
                }
                k = k + 1;
            }
            proof {
                assert(pv.take(j + 1) =~= pv.take(j as int).push(w@));
                assert(base + pv.take(j + 1) =~= (base + pv.take(j as int)).push(w@));
                (base + pv.take(j as int)).lemma_push_to_set_commute(w@);
            }
            if !found {
                words.push(w.clone());
                proof {
                    assert(string_views(words@) =~= before.push(w@));
                    assert(!before.contains(w@));
                    before.lemma_push_to_set_commute(w@);
                    assert forall|a: int, b: int| 0 <= a < b < before.len() + 1 implies before.push(w@)[a] != before.push(w@)[b] by {
                        if b == before.len() {
                            assert(before.push(w@)[a] == before[a]);
                        }
                    }
                }
            } else {
                proof {
                    let q = choose|q: int| 0 <= q < before.len() && before[q] == w@;
                    assert(before.to_set().contains(w@));
                    assert(before.to_set().insert(w@) =~= before.to_set());
                }
            }
            j = j + 1;
        }
        proof {
            assert(pv.take(phrase@.len() as int) =~= pv);
        }
        i = i + 1;
    }
    proof {
        assert(ps.take(probes@.len() as int) =~= ps);
    }
    words
}


// -- the query -----------------------------------------------------------------------------

/// How many songs hold a word, as the caller read it out of the index: the first count given for
/// it, and none for a word it does not name.
pub open spec fn held_count(word: Seq<char>, held: Seq<(Seq<char>, u64)>) -> nat
    decreases held.len(),
{
    if held.len() == 0 {
        0
    } else if held[0].0 == word {
        held[0].1 as nat
    } else {
        held_count(word, held.drop_first())
    }
}

/// How many songs hold a phrase's rarest word, which is how selective the phrase is; zero for a
/// phrase with no words.
pub open spec fn rarest(phrase: Seq<Seq<char>>, held: Seq<(Seq<char>, u64)>) -> nat
    decreases phrase.len(),
{
    if phrase.len() == 0 {
        0
    } else if phrase.len() == 1 {
        held_count(phrase[0], held)
    } else {
        let a = rarest(phrase.drop_last(), held);
        let b = held_count(phrase.last(), held);
        if b < a {
            b
        } else {
            a
        }
    }
}

/// Where the first of a stretch's most selective phrases is.
pub open spec fn first_rarest(stretch: Seq<Seq<Seq<char>>>, held: Seq<(Seq<char>, u64)>) -> int
    decreases stretch.len(),
{
    if stretch.len() <= 1 {
        0
    } else {
        let k = first_rarest(stretch.drop_last(), held);
        if rarest(stretch.last(), held) < rarest(stretch[k], held) {
            stretch.len() - 1
        } else {
            k
        }
    }
}

/// A phrase as a full-text phrase term: its words joined by spaces, any `"` taken out, in quotes.
pub open spec fn term_of(phrase: Seq<Seq<char>>) -> Seq<char> {
    seq!['"'] + replace_all(joined(phrase, seq![' ']), seq!['"'], seq![]) + seq!['"']
}

/// How many stretches the probes are cut into.
pub open spec fn stretches(n: nat) -> nat {
    if n < PROBES {
        n
    } else {
        PROBES as nat
    }
}

/// The terms asked for from the first `count` stretches: one phrase from each, the rarest, each
/// term once.
pub open spec fn query_terms(ps: Seq<Seq<Seq<char>>>, held: Seq<(Seq<char>, u64)>, count: nat) -> Seq<Seq<char>>
    decreases count,
{
    if count == 0 {
        seq![]
    } else {
        let rest = query_terms(ps, held, (count - 1) as nat);
        let nth = count - 1;
        let wanted = stretches(ps.len());
        let start: int = (nth * ps.len()) as int / wanted as int;
        let end: int = (count * ps.len()) as int / wanted as int;
        if start >= end {
            rest
        } else {
            let stretch = ps.subrange(start, end);
            let t = term_of(stretch[first_rarest(stretch, held)]);
            if rest.contains(t) {
                rest
            } else {
                rest.push(t)
            }
        }
    }
}

/// The full-text expression that gathers candidates: the chosen terms joined by ` OR `, or nothing
/// when the lyric offers no phrase.
pub open spec fn match_query_of(ps: Seq<Seq<Seq<char>>>, held: Seq<(Seq<char>, u64)>) -> Option<Seq<char>> {
    if ps.len() == 0 {
        None
    } else {
        let ts = query_terms(ps, held, stretches(ps.len()));
        if ts.len() == 0 {
            None
        } else {
            Some(joined(ts, " OR "@))
        }
    }
}

/// The counts a caller read out of the index, as characters and numbers.
pub open spec fn held_views(held: Seq<(String, u64)>) -> Seq<(Seq<char>, u64)> {
    held.map_values(|p: (String, u64)| (p.0@, p.1))
}

fn count_of(word: &String, held: &[(String, u64)]) -> (n: u64)
    ensures
        n as nat == held_count(word@, held_views(held@)),
{
    let ghost hv = held_views(held@);
    let mut i: usize = 0;
    proof {
        assert(hv.skip(0) =~= hv);
    }
    while i < held.len()
        invariant
            i <= held@.len(),
            hv == held_views(held@),
            held_count(word@, hv) == held_count(word@, hv.skip(i as int)),
        decreases held@.len() - i,
    {
        proof {
            assert(hv.skip(i as int)[0] == (held@[i as int].0@, held@[i as int].1));
            assert(hv.skip(i as int).drop_first() =~= hv.skip(i + 1));
        }
        if str_eq(held[i].0.as_str(), word.as_str()) {
            return held[i].1;
        }
        i = i + 1;
    }
    proof {
        assert(hv.skip(i as int).len() == 0);
    }
    0
}

fn rarest_of(phrase: &Vec<String>, held: &[(String, u64)]) -> (n: u64)
    ensures
        n as nat == rarest(string_views(phrase@), held_views(held@)),
{
    let ghost pv = string_views(phrase@);
    if phrase.len() == 0 {
        return 0;
    }
    let mut least = count_of(&phrase[0], held);
    proof {
        assert(pv.take(1).len() == 1);
        assert(pv.take(1)[0] == phrase@[0]@);
    }
    let mut i: usize = 1;
    while i < phrase.len()
        invariant
            1 <= i <= phrase@.len(),
            pv == string_views(phrase@),
            least as nat == rarest(pv.take(i as int), held_views(held@)),
        decreases phrase@.len() - i,
    {
        proof {
            assert(pv.take(i + 1).drop_last() =~= pv.take(i as int));
            assert(pv.take(i + 1).last() == phrase@[i as int]@);
        }
        let c = count_of(&phrase[i], held);
        if c < least {
            least = c;
        }
        i = i + 1;
    }
    proof {
        assert(pv.take(phrase@.len() as int) =~= pv);
    }
    least
}

fn join_with(parts: &Vec<Vec<char>>, sep: &str) -> (out: Vec<char>)
    ensures
        out@ == joined(texts(parts@), sep@),
{
    let ghost ps = texts(parts@);
    let mut out: Vec<char> = Vec::new();
    let mut i: usize = 0;
    while i < parts.len()
        invariant
            i <= parts@.len(),
            ps == texts(parts@),
            out@ == joined(ps.take(i as int), sep@),
        decreases parts@.len() - i,
    {
        proof {
            assert(ps.take(i + 1).drop_last() =~= ps.take(i as int));
            assert(ps.take(i + 1).last() == parts@[i as int]@);
        }
        if i > 0 {
            push_str(&mut out, sep);
        }
        push_all(&mut out, parts[i].as_slice());
        proof {
            if i == 0 {
                assert(out@ =~= ps.take(1)[0]);
            } else {
                assert(out@ =~= joined(ps.take(i as int), sep@) + sep@ + parts@[i as int]@);
            }
        }
        i = i + 1;
    }
    proof {
        assert(ps.take(parts@.len() as int) =~= ps);
    }
    out
}

/// The full-text expression that gathers candidates, or `None` when the lyric offers no phrase:
/// [`PROBES`] phrase terms joined by ` OR `.
///
/// Spread first, then rarest: the probes are cut into equal stretches and one is taken from each,
/// so a file missing its opening verse still matches on the ones after it; within a stretch the
/// phrase kept is the first of those whose rarest word the fewest songs hold. `held_by` is what the
/// caller read out of the index, one count per word, each word named once; a word it does not name
/// is held by nothing.
pub fn match_query(probes: &[Vec<String>], held_by: &[(String, u64)]) -> (q: Option<String>)
    requires
        probes@.len() * PROBES <= usize::MAX,
        forall|i: int, j: int|
            0 <= i < j < held_by@.len() ==> (#[trigger] held_by@[i]).0@ != (#[trigger] held_by@[j]).0@,
    ensures
        match q {
            Some(s) => match_query_of(phrase_views(probes@), held_views(held_by@)) == Some(s@),
            None => match_query_of(phrase_views(probes@), held_views(held_by@)) is None,
        },
{
    let ghost ps = phrase_views(probes@);
    let ghost hv = held_views(held_by@);
    let n = probes.len();
    if n == 0 {
        return None;
    }
    let wanted = if n < PROBES {
        n
    } else {
        PROBES
    };
    let mut terms: Vec<Vec<char>> = Vec::new();
    let mut nth: usize = 0;
    while nth < wanted
        invariant
            nth <= wanted,
            wanted as nat == stretches(n as nat),
            wanted > 0,
            wanted <= PROBES,
            n == probes@.len(),
            n * PROBES <= usize::MAX,
            ps == phrase_views(probes@),
            hv == held_views(held_by@),
            texts(terms@) == query_terms(ps, hv, nth as nat),
        decreases wanted - nth,
    {
        assert(nth * n <= PROBES * n) by (nonlinear_arith)
            requires nth <= PROBES;
        assert((nth + 1) * n <= PROBES * n) by (nonlinear_arith)
            requires nth + 1 <= PROBES;
        let start = nth * n / wanted;
        let end = (nth + 1) * n / wanted;
        assert(end <= n) by (nonlinear_arith)
            requires end as int == ((nth + 1) * n) as int / wanted as int, nth + 1 <= wanted, wanted > 0;
        if start < end {
            let mut best = start;
            let mut best_count = rarest_of(&probes[start], held_by);
            let ghost stretch = ps.subrange(start as int, end as int);
            proof {
                assert(stretch[0] == ps[start as int]);
            }
            let mut k = start + 1;
            while k < end
                invariant
                    start < k <= end,
                    end <= n,
                    n == probes@.len(),
                    stretch == ps.subrange(start as int, end as int),
                    ps == phrase_views(probes@),
                    hv == held_views(held_by@),
                    start <= best < k,
                    best - start == first_rarest(stretch.take(k - start), hv),
                    best_count as nat == rarest(ps[best as int], hv),
                decreases end - k,
            {
                proof {
                    assert(stretch.take(k - start + 1).drop_last() =~= stretch.take(k - start));
                    assert(stretch.take(k - start + 1).last() == ps[k as int]);
                    assert(stretch.take(k - start + 1)[best - start] == ps[best as int]);
                    assert(stretch.take(k - start)[best - start] == ps[best as int]);
                }
                let c = rarest_of(&probes[k], held_by);
                if c < best_count {
                    best = k;
                    best_count = c;
                }
                k = k + 1;
            }
            proof {
                assert(stretch.take(end - start) =~= stretch);
                assert(stretch[best - start] == ps[best as int]);
            }
            let words = crate::browse::join_strings(&probes[best], ' ');
            let wv = chars_of(words.as_str());
            let quote = ['"'];
            let nothing: [char; 0] = [];
            let cleaned = replace_chars(wv.as_slice(), &quote, &nothing);
            let mut term: Vec<char> = Vec::new();
            term.push('"');
            push_all(&mut term, cleaned.as_slice());
            term.push('"');
            proof {
                assert(quote@ =~= seq!['"']);
                assert(nothing@ =~= Seq::<char>::empty());
                assert(term@ =~= term_of(ps[best as int]));
            }
            let mut present = false;
            let mut j: usize = 0;
            while j < terms.len()
                invariant
                    j <= terms@.len(),
                    present == exists|q: int| 0 <= q < j && terms@[q]@ == term@,
                decreases terms@.len() - j,
            {
                if crate::text::same_chars(terms[j].as_slice(), term.as_slice()) {
                    present = true;
                }
                j = j + 1;
            }
            proof {
                if present {
                    let q = choose|q: int| 0 <= q < terms@.len() && terms@[q]@ == term@;
                    assert(texts(terms@)[q] == term@);
                } else {
                    assert forall|q: int| 0 <= q < texts(terms@).len() implies texts(terms@)[q] != term@ by {
                        assert(texts(terms@)[q] == terms@[q]@);
                    }
                }
            }
            if !present {
                let ghost before = texts(terms@);
                terms.push(term);
                proof {
                    assert(texts(terms@) =~= before.push(term@));
                }
            }
        }
        nth = nth + 1;
    }
    if terms.len() == 0 {
        return None;
    }
    let out = join_with(&terms, " OR ");
    Some(string_of(out.as_slice()))
}


// -- what the query promises ---------------------------------------------------------------

proof fn lemma_first_sightings_distinct(ws: Seq<Seq<Seq<char>>>)
    ensures
        forall|i: int, j: int|
            0 <= i < j < first_sightings(ws).len() ==> run_hash(#[trigger] first_sightings(ws)[i]) != run_hash(
                #[trigger] first_sightings(ws)[j],
            ),
        forall|i: int|
            0 <= i < first_sightings(ws).len() ==> exists|k: int| 0 <= k < ws.len() && ws[k] == #[trigger] first_sightings(ws)[i],
    decreases ws.len(),
{
    if ws.len() > 0 {
        let init = ws.drop_last();
        lemma_first_sightings_distinct(init);
        let rest = first_sightings(init);
        let fs = first_sightings(ws);
        assert forall|i: int| 0 <= i < fs.len() implies exists|k: int| 0 <= k < ws.len() && ws[k] == #[trigger] fs[i] by {
            if i < rest.len() {
                assert(fs[i] == rest[i]);
                let k = choose|k: int| 0 <= k < init.len() && init[k] == rest[i];
                assert(ws[k] == init[k]);
            } else {
                assert(fs[i] == ws.last());
                assert(ws[ws.len() - 1] == ws.last());
            }
        }
        if !(exists|i: int| 0 <= i < ws.len() - 1 && run_hash(ws[i]) == run_hash(ws.last())) {
            assert forall|i: int, j: int| 0 <= i < j < fs.len() implies run_hash(#[trigger] fs[i]) != run_hash(#[trigger] fs[j]) by {
                if j == fs.len() - 1 && i < rest.len() {
                    assert(fs[i] == rest[i]);
                    let k = choose|k: int| 0 <= k < init.len() && init[k] == rest[i];
                    assert(ws[k] == init[k]);
                } else {
                    assert(fs[i] == rest[i]);
                    assert(fs[j] == rest[j]);
                }
            }
        }
    }
}

/// Whether a phrase is [`SHINGLE`] words in a row out of one of the runs.
pub open spec fn lies_in_a_run(p: Seq<Seq<char>>, runs: Seq<Seq<Seq<char>>>) -> bool {
    exists|r: int, i: int|
        #![trigger runs[r].subrange(i, i + SHINGLE)]
        0 <= r < runs.len() && 0 <= i && i + SHINGLE <= runs[r].len() && p == runs[r].subrange(i, i + SHINGLE)
}

proof fn lemma_all_windows_lie_in_a_run(runs: Seq<Seq<Seq<char>>>)
    ensures
        forall|k: int| 0 <= k < all_windows(runs).len() ==> lies_in_a_run(#[trigger] all_windows(runs)[k], runs),
    decreases runs.len(),
{
    if runs.len() > 0 {
        let init = runs.drop_last();
        lemma_all_windows_lie_in_a_run(init);
        let a = all_windows(init);
        let w = windows(runs.last());
        assert forall|k: int| 0 <= k < all_windows(runs).len() implies lies_in_a_run(#[trigger] all_windows(runs)[k], runs) by {
            if k < a.len() {
                assert(all_windows(runs)[k] == a[k]);
                assert(lies_in_a_run(a[k], init));
                let (r, i) = choose|r: int, i: int|
                    #![trigger init[r].subrange(i, i + SHINGLE)]
                    0 <= r < init.len() && 0 <= i && i + SHINGLE <= init[r].len() && a[k] == init[r].subrange(i, i + SHINGLE);
                assert(runs[r] == init[r]);
                assert(runs[r].subrange(i, i + SHINGLE) == a[k]);
            } else {
                let i = k - a.len();
                assert(all_windows(runs)[k] == w[i]);
                let r = runs.len() - 1;
                assert(runs[r] == runs.last());
                assert(runs[r].subrange(i, i + SHINGLE) == w[i]);
            }
        }
    }
}

/// A phrase never crosses from one run of kept lines into the next: every probe is [`SHINGLE`]
/// words in a row out of a single run. And a phrase the song repeats is asked for once: no two
/// probes share a hash, so no two are the same.
pub proof fn law_no_phrase_crosses_a_dropped_line(runs: Seq<Seq<Seq<char>>>, min_words: nat)
    ensures
        forall|k: int| 0 <= k < probes_of(runs, min_words).len() ==> lies_in_a_run(#[trigger] probes_of(runs, min_words)[k], runs),
        forall|i: int, j: int|
            0 <= i < j < probes_of(runs, min_words).len() ==> #[trigger] probes_of(runs, min_words)[i] != #[trigger] probes_of(runs, min_words)[j],
{
    if word_count(runs) >= min_words {
        let ws = all_windows(runs);
        lemma_first_sightings_distinct(ws);
        lemma_all_windows_lie_in_a_run(runs);
        let ps = probes_of(runs, min_words);
        assert forall|k: int| 0 <= k < ps.len() implies lies_in_a_run(#[trigger] ps[k], runs) by {
            let q = choose|q: int| 0 <= q < ws.len() && ws[q] == ps[k];
            assert(lies_in_a_run(ws[q], runs));
        }
        assert forall|i: int, j: int| 0 <= i < j < ps.len() implies #[trigger] ps[i] != #[trigger] ps[j] by {
            assert(run_hash(ps[i]) != run_hash(ps[j]));
        }
    }
}

/// Each term is asked for once, and never more terms than stretches: a repeated chorus cannot
/// spend the sample twice, and a short song asks for each stretch it has at most once.
pub proof fn law_each_term_is_asked_for_once(ps: Seq<Seq<Seq<char>>>, held: Seq<(Seq<char>, u64)>, count: nat)
    ensures
        query_terms(ps, held, count).no_duplicates(),
        query_terms(ps, held, count).len() <= count,
    decreases count,
{
    if count > 0 {
        law_each_term_is_asked_for_once(ps, held, (count - 1) as nat);
        let rest = query_terms(ps, held, (count - 1) as nat);
        let now = query_terms(ps, held, count);
        if now != rest {
            assert forall|a: int, b: int| 0 <= a < b < now.len() implies now[a] != now[b] by {
                if b == now.len() - 1 {
                    assert(now[a] == rest[a]);
                    assert(rest.contains(rest[a]));
                }
            }
        }
    }
}


/// How many songs hold a word is the count first given for it in what the index answered, and
/// none when the answer does not name it.
pub proof fn law_a_word_is_held_as_first_counted(word: Seq<char>, held: Seq<(Seq<char>, u64)>)
    ensures
        (forall|i: int| 0 <= i < held.len() ==> (#[trigger] held[i]).0 != word) ==> held_count(word, held) == 0,
        forall|i: int|
            0 <= i < held.len() && (#[trigger] held[i]).0 == word && (forall|j: int| 0 <= j < i ==> held[j].0 != word)
                ==> held_count(word, held) == held[i].1,
    decreases held.len(),
{
    if held.len() > 0 {
        law_a_word_is_held_as_first_counted(word, held.drop_first());
        assert forall|i: int|
            0 <= i < held.len() && (#[trigger] held[i]).0 == word && (forall|j: int| 0 <= j < i ==> held[j].0 != word)
                implies held_count(word, held) == held[i].1 by {
            if i > 0 {
                assert(held[0].0 != word);
                assert(held.drop_first()[i - 1] == held[i]);
                assert forall|j: int| 0 <= j < i - 1 implies held.drop_first()[j].0 != word by {
                    assert(held.drop_first()[j] == held[j + 1]);
                }
            }
        }
        if forall|i: int| 0 <= i < held.len() ==> (#[trigger] held[i]).0 != word {
            assert(held[0].0 != word);
            assert forall|i: int| 0 <= i < held.drop_first().len() implies (#[trigger] held.drop_first()[i]).0 != word by {
                assert(held.drop_first()[i] == held[i + 1]);
            }
        }
    }
}

/// **A phrase is as selective as its rarest word**: no word of it is held by fewer songs than the
/// phrase's count, and one of its words is held by exactly that many.
pub proof fn law_a_phrase_counts_its_rarest_word(phrase: Seq<Seq<char>>, held: Seq<(Seq<char>, u64)>)
    requires
        phrase.len() > 0,
    ensures
        forall|i: int| 0 <= i < phrase.len() ==> rarest(phrase, held) <= held_count(#[trigger] phrase[i], held),
        exists|j: int| 0 <= j < phrase.len() && rarest(phrase, held) == held_count(#[trigger] phrase[j], held),
    decreases phrase.len(),
{
    if phrase.len() == 1 {
        assert(rarest(phrase, held) == held_count(phrase[0], held));
    } else {
        let init = phrase.drop_last();
        law_a_phrase_counts_its_rarest_word(init, held);
        assert forall|i: int| 0 <= i < phrase.len() implies rarest(phrase, held) <= held_count(#[trigger] phrase[i], held) by {
            if i < phrase.len() - 1 {
                assert(init[i] == phrase[i]);
            }
        }
        let last = phrase.len() - 1;
        if held_count(phrase.last(), held) < rarest(init, held) {
            assert(rarest(phrase, held) == held_count(phrase[last], held));
        } else {
            let j = choose|j: int| 0 <= j < init.len() && rarest(init, held) == held_count(#[trigger] init[j], held);
            assert(init[j] == phrase[j]);
            assert(rarest(phrase, held) == held_count(phrase[j], held));
        }
    }
}

/// **Each stretch offers its most selective phrase, the first of them on a tie**: no phrase of the
/// stretch has a rarer rarest word than the one picked, and every phrase before it a strictly
/// commoner one.
pub proof fn law_a_stretch_offers_its_rarest_phrase(stretch: Seq<Seq<Seq<char>>>, held: Seq<(Seq<char>, u64)>)
    requires
        stretch.len() > 0,
    ensures
        0 <= first_rarest(stretch, held) < stretch.len(),
        forall|i: int| 0 <= i < stretch.len() ==> rarest(stretch[first_rarest(stretch, held)], held) <= rarest(#[trigger] stretch[i], held),
        forall|i: int| 0 <= i < first_rarest(stretch, held) ==> rarest(stretch[first_rarest(stretch, held)], held) < rarest(#[trigger] stretch[i], held),
    decreases stretch.len(),
{
    if stretch.len() > 1 {
        let init = stretch.drop_last();
        law_a_stretch_offers_its_rarest_phrase(init, held);
        let k = first_rarest(init, held);
        assert(init[k] == stretch[k]);
        assert forall|i: int| 0 <= i < stretch.len() - 1 implies #[trigger] stretch[i] == init[i] by {}
    }
}

// -- one lyric's word runs, for comparing --------------------------------------------------

/// The hashes of every run of [`SHINGLE`] words a song sings, each once.
pub open spec fn shingle_set(words: Seq<Seq<char>>) -> Set<u64> {
    windows(words).map_values(|w: Seq<Seq<char>>| run_hash(w)).to_set()
}

/// One lyric's word-runs, hashed, made once and set against many. A set and not a tally: a chorus
/// sung four times is one run.
#[derive(Debug)]
pub struct Shingles {
    hashes: Vec<u64>,
}

impl Shingles {
    #[verifier::type_invariant]
    spec fn each_once(self) -> bool {
        self.hashes@.no_duplicates()
    }

    /// The hashes held.
    pub closed spec fn set(self) -> Set<u64> {
        self.hashes@.to_set()
    }

    /// How many hashes are held.
    pub fn len(&self) -> (n: usize)
        ensures
            n == self.set().len(),
    {
        proof {
            use_type_invariant(self);
            self.hashes@.unique_seq_to_set();
        }
        self.hashes.len()
    }

    /// Every run of [`SHINGLE`] words the song sings, given its folded words, or `None` when it had
    /// too few words to compare (which is what a missing word list says).
    pub fn of(words: Option<&[String]>) -> (r: Option<Shingles>)
        ensures
            match (words, r) {
                (None, None) => true,
                (Some(w), Some(s)) => s.set() == shingle_set(string_views(w@)),
                _ => false,
            },
    {
        let words = match words {
            None => {
                return None;
            },
            Some(w) => w,
        };
        let ghost wv = string_views(words@);
        let ghost ws = windows(wv);
        let ghost hs = ws.map_values(|w: Seq<Seq<char>>| run_hash(w));
        let mut hashes: Vec<u64> = Vec::new();
        if words.len() >= SHINGLE {
            let mut i: usize = 0;
            while i <= words.len() - SHINGLE
                invariant
                    words@.len() >= SHINGLE,
                    i <= words@.len() - SHINGLE + 1,
                    wv == string_views(words@),
                    ws == windows(wv),
                    hs == ws.map_values(|w: Seq<Seq<char>>| run_hash(w)),
                    hashes@.no_duplicates(),
                    hashes@.to_set() == hs.take(i as int).to_set(),
                decreases words@.len() + 1 - (i + SHINGLE),
            {
                let w = words_between_slice(words, i, i + SHINGLE);
                let h = hash_of(w.as_slice());
                proof {
                    assert(string_views(w@) == ws[i as int]);
                    assert(hs[i as int] == h);
                    assert(hs.take(i + 1) =~= hs.take(i as int).push(h));
                    hs.take(i as int).lemma_push_to_set_commute(h);
                }
                let mut present = false;
                let mut k: usize = 0;
                while k < hashes.len()
                    invariant
                        k <= hashes@.len(),
                        present == hashes@.take(k as int).contains(h),
                    decreases hashes@.len() - k,
                {
                    proof {
                        assert(hashes@.take(k + 1) =~= hashes@.take(k as int).push(hashes@[k as int]));
                    }
                    if hashes[k] == h {
                        present = true;
                        proof {
                            assert(hashes@.take(k + 1)[k as int] == h);
                        }
                    } else {
                        proof {
                            let t = hashes@.take(k + 1);
                            if t.contains(h) {
                                let q = choose|q: int| 0 <= q < t.len() && t[q] == h;
                                assert(hashes@.take(k as int)[q] == h);
                            }
                        }
                    }
                    k = k + 1;
                }
                proof {
                    assert(hashes@.take(hashes@.len() as int) =~= hashes@);
                }
                if present {
                    proof {
                        assert(hashes@.to_set().contains(h));
                        assert(hashes@.to_set().insert(h) =~= hashes@.to_set());
                    }
                } else {
                    let ghost before = hashes@;
                    hashes.push(h);
                    proof {
                        before.lemma_push_to_set_commute(h);
                        assert forall|a: int, b: int| 0 <= a < b < hashes@.len() implies hashes@[a] != hashes@[b] by {
                            if b == before.len() {
                                assert(hashes@[a] == before[a]);
                                assert(before.contains(before[a]));
                            }
                        }
                    }
                }
                i = i + 1;
            }
            proof {
                assert(hs.take(i as int) =~= hs);
            }
        } else {
            proof {
                assert(hs =~= Seq::<u64>::empty());
                assert(hashes@.to_set() =~= hs.to_set());
            }
        }
        Some(Shingles { hashes })
    }

    /// How much of two lyric bodies is word for word the same: the runs both have, and the runs
    /// either has. The share is the first over the second, which makes an extra verse cost
    /// something; nothing is shared when either side is empty.
    pub fn overlap(&self, other: &Shingles) -> (r: (usize, usize))
        requires
            self.set().len() + other.set().len() <= usize::MAX,
        ensures
            r.0 == self.set().intersect(other.set()).len(),
            r.1 == self.set().len() + other.set().len() - self.set().intersect(other.set()).len(),
    {
        proof {
            use_type_invariant(self);
            use_type_invariant(other);
        }
        let ghost a = self.hashes@;
        let ghost b = other.hashes@.to_set();
        let mut shared: usize = 0;
        let mut i: usize = 0;
        proof {
            assert(a.take(0).to_set().intersect(b) =~= Set::<u64>::empty());
            a.unique_seq_to_set();
            other.hashes@.unique_seq_to_set();
        }
        while i < self.hashes.len()
            invariant
                i <= a.len(),
                a == self.hashes@,
                b == other.hashes@.to_set(),
                a.no_duplicates(),
                shared as nat == a.take(i as int).to_set().intersect(b).len(),
                shared <= i,
            decreases a.len() - i,
        {
            let h = self.hashes[i];
            let mut found = false;
            let mut k: usize = 0;
            while k < other.hashes.len()
                invariant
                    k <= other.hashes@.len(),
                    found == other.hashes@.take(k as int).contains(h),
                decreases other.hashes@.len() - k,
            {
                proof {
                    assert(other.hashes@.take(k + 1) =~= other.hashes@.take(k as int).push(other.hashes@[k as int]));
                }
                if other.hashes[k] == h {
                    found = true;
                    proof {
                        assert(other.hashes@.take(k + 1)[k as int] == h);
                    }
                } else {
                    proof {
                        let t = other.hashes@.take(k + 1);
                        if t.contains(h) {
                            let q = choose|q: int| 0 <= q < t.len() && t[q] == h;
                            assert(other.hashes@.take(k as int)[q] == h);
                        }
                    }
                }
                k = k + 1;
            }
            proof {
                assert(other.hashes@.take(other.hashes@.len() as int) =~= other.hashes@);
                let before = a.take(i as int);
                assert(a.take(i + 1) =~= before.push(h));
                before.lemma_push_to_set_commute(h);
                assert(!before.to_set().contains(h)) by {
                    if before.to_set().contains(h) {
                        let q = choose|q: int| 0 <= q < before.len() && before[q] == h;
                        assert(a[q] == a[i as int]);
                    }
                }
                let s0 = before.to_set().intersect(b);
                if found {
                    assert(b.contains(h));
                    assert(before.push(h).to_set().intersect(b) =~= s0.insert(h));
                    assert(!s0.contains(h));
                } else {
                    assert(before.push(h).to_set().intersect(b) =~= s0);
                }
            }
            if found {
                shared = shared + 1;
            }
            i = i + 1;
        }
        proof {
            assert(a.take(a.len() as int) =~= a);
            a.unique_seq_to_set();
            other.hashes@.unique_seq_to_set();
            vstd::set_lib::lemma_len_intersect(a.to_set(), b);
        }
        let union = self.hashes.len() - shared + other.hashes.len();
        (shared, union)
    }
}

fn words_between_slice(run: &[String], from: usize, to: usize) -> (out: Vec<String>)
    requires
        from <= to <= run@.len(),
    ensures
        string_views(out@) == string_views(run@).subrange(from as int, to as int),
{
    let mut out: Vec<String> = Vec::new();
    let mut i: usize = from;
    while i < to
        invariant
            from <= i <= to,
            to <= run@.len(),
            string_views(out@) == string_views(run@).subrange(from as int, i as int),
        decreases to - i,
    {
        let ghost before = string_views(out@);
        out.push(run[i].clone());
        proof {
            assert(string_views(out@) =~= before.push(run@[i as int]@));
            assert(string_views(run@).subrange(from as int, i + 1) =~= string_views(run@).subrange(
                from as int,
                i as int,
            ).push(run@[i as int]@));
        }
        i = i + 1;
    }
    out
}

} // verus!
