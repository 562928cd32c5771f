//! What a link written for a filter reads back as: the filter it was written from, less the one
//! filter the link dropped. The pieces of that argument live here; the statement itself is part
//! of what [`FilterQuery::from_body`] promises.

use vstd::prelude::*;
use crate::text::{encoded_bytes, passes_unchanged, decimal, digit_char, is_digit, split_on, index_of,
    lemma_index_of, first_at, lemma_first_at_is_index_of, trim, trim_start, trim_end, white_space,
    ascii_lower, chars_lt, lemma_chars_lt_total, lemma_chars_lt_transitive, lemma_chars_lt_irreflexive};
use crate::filter::{strictly_sorted, named_tags, tag_named, folded_tag};
use crate::form::{written_pair, written_pairs, value_under, first_under, lemma_first_under, u32_value,
    digits_value, digit_value, NumberError};
use crate::browse::{FilterQuery, url_value, pair_part, flag_part, paging_parts, joined, sorted_list,
    chosen_set, without_tag, one_tag_dropped, first_problem, pair_problem, number_key, filter_key,
    text_field};
use crate::form::{plain_key, plain_key_char, form_text};
use crate::model::optional_string;
use crate::filter::{score_spelling, score_reading, language_spelling, language_reading};
use crate::filter::{suitability_spelling, suitability_reading, initial_spelling, initial_reading,
    copies_spelling, copies_reading, added_spelling, added_reading, versions_spelling, versions_reading,
    favorited_spelling, favorited_reading};

verus! {

broadcast use vstd::utf8::is_ascii_chars_encode_utf8;

/// The pair a non-empty value writes, unless its key is the one being dropped.
pub open spec fn value_pair(key: Seq<char>, value: Seq<char>, dropped: Seq<char>) -> Seq<(Seq<char>, Seq<char>)> {
    if value.len() > 0 && key != dropped {
        seq![(key, value)]
    } else {
        seq![]
    }
}

/// The pair a flag writes when it is on, unless its key is the one being dropped.
pub open spec fn flag_pair(on: bool, key: Seq<char>, dropped: Seq<char>) -> Seq<(Seq<char>, Seq<char>)> {
    if on && key != dropped {
        seq![(key, "1"@)]
    } else {
        seq![]
    }
}

/// The pairs paging adds.
pub open spec fn paging_pairs(offset: u32, total: Option<u32>) -> Seq<(Seq<char>, Seq<char>)> {
    (if offset > 0 {
        seq![("offset"@, decimal(offset as nat))]
    } else {
        seq![]
    }) + match total {
        Some(t) => seq![("total"@, decimal(t as nat))],
        None => seq![],
    }
}

/// Writing a list of pairs writes each part of it in turn.
pub broadcast proof fn lemma_written_pairs_add(a: Seq<(Seq<char>, Seq<char>)>, b: Seq<(Seq<char>, Seq<char>)>)
    ensures
        #[trigger] written_pairs(a + b) == written_pairs(a) + written_pairs(b),
{
    assert(written_pairs(a + b) =~= written_pairs(a) + written_pairs(b));
}

/// Bytes the encoding passes as they are come out as the characters they are.
proof fn lemma_unchanged_bytes(bytes: Seq<u8>)
    requires
        forall|i: int| 0 <= i < bytes.len() ==> passes_unchanged(#[trigger] bytes[i]),
    ensures
        encoded_bytes(bytes) == bytes.map_values(|b: u8| b as char),
    decreases bytes.len(),
{
    if bytes.len() > 0 {
        lemma_unchanged_bytes(bytes.drop_last());
        assert(encoded_bytes(bytes) =~= bytes.map_values(|b: u8| b as char));
    }
}

/// A text of ASCII digits travels in a link as it is.
pub proof fn lemma_digits_travel_as_they_are(s: Seq<char>)
    requires
        forall|i: int| 0 <= i < s.len() ==> is_digit(#[trigger] s[i]),
    ensures
        url_value(s) == s,
{
    assert forall|i: int| 0 <= i < s.len() implies '\0' <= s[i] && s[i] <= '\u{7f}' by {
        let c = s[i];
        assert(is_digit(c));
        assert(48 <= c as u32 <= 57);
        lemma_digit_is_ascii(c);
    }
    assert(vstd::utf8::is_ascii_chars(s));
    let bytes = vstd::utf8::encode_utf8(s);
    assert forall|i: int| 0 <= i < bytes.len() implies passes_unchanged(#[trigger] bytes[i]) by {
        assert(s[i] as u8 == bytes[i]);
    }
    lemma_unchanged_bytes(bytes);
    assert(bytes.map_values(|b: u8| b as char) =~= s) by {
        assert forall|i: int| 0 <= i < s.len() implies bytes.map_values(|b: u8| b as char)[i] == s[i] by {
            assert(s[i] as u8 == bytes[i]);
        }
    }
}

proof fn lemma_digit_is_ascii(c: char)
    requires
        48 <= c as u32 <= 57,
    ensures
        '\0' <= c && c <= '\u{7f}',
{
}

/// A number is written in digits.
pub proof fn lemma_decimal_digits(n: nat)
    ensures
        forall|i: int| 0 <= i < decimal(n).len() ==> is_digit(#[trigger] decimal(n)[i]),
        decimal(n).len() > 0,
    decreases n,
{
    if n >= 10 {
        lemma_decimal_digits(n / 10);
    }
}

/// A value's pair is written as its part.
pub proof fn lemma_value_pair_writes(key: Seq<char>, value: Seq<char>, dropped: Seq<char>)
    ensures
        written_pairs(value_pair(key, value, dropped)) == pair_part(key, value, dropped),
{
    assert(written_pairs(value_pair(key, value, dropped)) =~= pair_part(key, value, dropped));
}

/// A flag's pair is written as its part.
pub proof fn lemma_flag_pair_writes(on: bool, key: Seq<char>, dropped: Seq<char>)
    ensures
        written_pairs(flag_pair(on, key, dropped)) == flag_part(on, key, dropped),
{
    reveal_strlit("1");
    reveal_strlit("=");
    reveal_strlit("=1");
    lemma_digits_travel_as_they_are("1"@);
    assert(key + "="@ + "1"@ =~= key + "=1"@);
    assert(written_pairs(flag_pair(on, key, dropped)) =~= flag_part(on, key, dropped));
}

/// Paging's pairs are written as its parts.
pub proof fn lemma_paging_pairs_write(offset: u32, total: Option<u32>)
    ensures
        written_pairs(paging_pairs(offset, total)) == paging_parts(offset, total),
{
    reveal_strlit("1");
    reveal_strlit("=");
    reveal_strlit("=1");
    reveal_strlit("offset");
    reveal_strlit("offset=");
    reveal_strlit("total");
    reveal_strlit("total=");
    lemma_decimal_digits(offset as nat);
    lemma_digits_travel_as_they_are(decimal(offset as nat));
    assert("offset"@ + "="@ + decimal(offset as nat) =~= "offset="@ + decimal(offset as nat));
    if let Some(t) = total {
        lemma_decimal_digits(t as nat);
        lemma_digits_travel_as_they_are(decimal(t as nat));
        assert("total"@ + "="@ + decimal(t as nat) =~= "total="@ + decimal(t as nat));
    }
    broadcast use lemma_written_pairs_add;
    assert(written_pairs(paging_pairs(offset, total)) =~= paging_parts(offset, total));
}

} // verus!

verus! {

/// The keys a link can carry, in the order it writes them.
pub open spec fn link_key(i: int) -> Seq<char> {
    if i == 0 { "q"@ }
    else if i == 1 { "suitability"@ }
    else if i == 2 { "user_score"@ }
    else if i == 3 { "initial"@ }
    else if i == 4 { "artist"@ }
    else if i == 5 { "favorite"@ }
    else if i == 6 { "melody"@ }
    else if i == 7 { "encoding_source"@ }
    else if i == 8 { "granularity"@ }
    else if i == 9 { "kind"@ }
    else if i == 10 { "language"@ }
    else if i == 11 { "tags"@ }
    else if i == 12 { "copies"@ }
    else if i == 13 { "added"@ }
    else if i == 14 { "versions"@ }
    else if i == 15 { "favorited"@ }
    else if i == 16 { "sort"@ }
    else if i == 17 { "unpackaged"@ }
    else if i == 18 { "filename"@ }
    else if i == 19 { "offset"@ }
    else { "total"@ }
}

/// The keys a link can carry are all different.
pub proof fn lemma_link_keys_distinct()
    ensures
        forall|i: int, j: int| 0 <= i < j < 21 ==> #[trigger] link_key(i) != #[trigger] link_key(j),
{
    reveal_strlit("q");
    reveal_strlit("suitability");
    reveal_strlit("user_score");
    reveal_strlit("initial");
    reveal_strlit("artist");
    reveal_strlit("favorite");
    reveal_strlit("melody");
    reveal_strlit("encoding_source");
    reveal_strlit("granularity");
    reveal_strlit("kind");
    reveal_strlit("language");
    reveal_strlit("tags");
    reveal_strlit("copies");
    reveal_strlit("added");
    reveal_strlit("versions");
    reveal_strlit("favorited");
    reveal_strlit("sort");
    reveal_strlit("unpackaged");
    reveal_strlit("filename");
    reveal_strlit("offset");
    reveal_strlit("total");
    assert forall|i: int, j: int| 0 <= i < j < 21 implies #[trigger] link_key(i) != #[trigger] link_key(j) by {
        if link_key(i) == link_key(j) {
            assert(link_key(i).len() == link_key(j).len());
            assert(link_key(i)[0] == link_key(j)[0]);
            if link_key(i).len() >= 2 {
                assert(link_key(i)[1] == link_key(j)[1]);
            }
        }
    }
}

} // verus!

verus! {

/// The pairs of a list that carry something, in order.
pub open spec fn present(s: Seq<(Seq<char>, Seq<char>)>) -> Seq<(Seq<char>, Seq<char>)>
    decreases s.len(),
{
    if s.len() == 0 {
        seq![]
    } else {
        present(s.drop_last()) + carried(s.last())
    }
}

/// One pair, if it carries something.
pub open spec fn carried(p: (Seq<char>, Seq<char>)) -> Seq<(Seq<char>, Seq<char>)> {
    if p.1.len() > 0 {
        seq![p]
    } else {
        seq![]
    }
}

impl FilterQuery {
    /// The tags a link written with `dropped` left out carries, in order.
    pub open spec fn kept_tag_list(&self, dropped: Seq<char>) -> Seq<Seq<char>> {
        without_tag(sorted_list(chosen_set(self.tags@, self.add_tag@)), one_tag_dropped(dropped))
    }

    /// What a link carries of the filter under the key at `i`, before the drop: the value as the
    /// link writes it, `1` for a flag that is on, and nothing for one that is off or a value that is
    /// empty.
    pub open spec fn written_value(&self, dropped: Seq<char>, i: int) -> Seq<char> {
        if i == 0 { self.q@ }
        else if i == 1 { suitability_spelling(suitability_reading(self.suitability@)) }
        else if i == 2 { self.user_score@ }
        else if i == 3 { initial_spelling(initial_reading(self.initial@)) }
        else if i == 4 { crate::text::trim(self.artist@) }
        else if i == 5 { self.favorite@ }
        else if i == 6 { self.melody@ }
        else if i == 7 { self.encoding_source@ }
        else if i == 8 { self.granularity@ }
        else if i == 9 { self.kind@ }
        else if i == 10 { self.language@ }
        else if i == 11 { joined(self.kept_tag_list(dropped), ","@) }
        else if i == 12 { copies_spelling(copies_reading(self.copies@)) }
        else if i == 13 { added_spelling(added_reading(self.added@)) }
        else if i == 14 { versions_spelling(versions_reading(self.versions@)) }
        else if i == 15 { favorited_spelling(favorited_reading(self.favorited@)) }
        else if i == 16 { self.sort@ }
        else if i == 17 { if self.unpackaged is Some { "1"@ } else { seq![] } }
        else { if self.filename is Some { "1"@ } else { seq![] } }
    }

    /// What a link carries under the key at `i`: the filter's value unless its key is the one
    /// dropped, and where the page starts and the count carried forward.
    pub open spec fn link_value(&self, dropped: Seq<char>, offset: u32, total: Option<u32>, i: int) -> Seq<char> {
        if i < 19 {
            if link_key(i) == dropped { seq![] } else { self.written_value(dropped, i) }
        } else if i == 19 {
            if offset > 0 { decimal(offset as nat) } else { seq![] }
        } else {
            match total {
                Some(t) => decimal(t as nat),
                None => seq![],
            }
        }
    }

    /// Every key a link can carry, with what it carries there.
    pub open spec fn link_slots(&self, dropped: Seq<char>, offset: u32, total: Option<u32>) -> Seq<(Seq<char>, Seq<char>)> {
        Seq::new(21, |i: int| (link_key(i), self.link_value(dropped, offset, total, i)))
    }

    /// The pairs a link carries, in the order it writes them.
    pub open spec fn link_pairs(&self, dropped: Seq<char>, offset: u32, total: Option<u32>) -> Seq<(Seq<char>, Seq<char>)> {
        present(self.link_slots(dropped, offset, total))
    }
}

proof fn lemma_present_step(s: Seq<(Seq<char>, Seq<char>)>, n: int)
    requires
        0 < n <= s.len(),
    ensures
        present(s.take(n)) == present(s.take(n - 1)) + carried(s[n - 1]),
{
    assert(s.take(n).drop_last() =~= s.take(n - 1));
}

proof fn lemma_carried_is_a_value_pair(f: FilterQuery, dropped: Seq<char>, offset: u32, total: Option<u32>, i: int)
    requires
        0 <= i < 19,
    ensures
        carried((link_key(i), f.link_value(dropped, offset, total, i))) == value_pair(link_key(i), f.written_value(dropped, i), dropped),
{
}

/// A link's pairs, written, are the parts [`FilterQuery::rebuild`] joins.
#[verifier::rlimit(100)]
#[verifier::spinoff_prover]
pub proof fn lemma_link_pairs_are_written_as_the_parts(f: FilterQuery, dropped: Seq<char>, offset: u32, total: Option<u32>)
    ensures
        written_pairs(f.link_pairs(dropped, offset, total)) == f.filter_parts(dropped) + paging_parts(offset, total),
{
    broadcast use lemma_written_pairs_add;
    let s = f.link_slots(dropped, offset, total);
    assert(s.take(21) =~= s);
    assert(s.take(0) =~= Seq::<(Seq<char>, Seq<char>)>::empty());
    lemma_present_step(s, 21);
    lemma_present_step(s, 20);
    lemma_present_step(s, 19);
    lemma_present_step(s, 18);
    lemma_present_step(s, 17);
    lemma_present_step(s, 16);
    lemma_present_step(s, 15);
    lemma_present_step(s, 14);
    lemma_present_step(s, 13);
    lemma_present_step(s, 12);
    lemma_present_step(s, 11);
    lemma_present_step(s, 10);
    lemma_present_step(s, 9);
    lemma_present_step(s, 8);
    lemma_present_step(s, 7);
    lemma_present_step(s, 6);
    lemma_present_step(s, 5);
    lemma_present_step(s, 4);
    lemma_present_step(s, 3);
    lemma_present_step(s, 2);
    lemma_present_step(s, 1);
    assert forall|j: int| 0 <= j < 17 implies written_pairs(#[trigger] carried(s[j])) == pair_part(
        link_key(j),
        f.written_value(dropped, j),
        dropped,
    ) by {
        lemma_carried_is_a_value_pair(f, dropped, offset, total, j);
        lemma_value_pair_writes(link_key(j), f.written_value(dropped, j), dropped);
    }
    reveal_strlit("unpackaged");
    reveal_strlit("filename");
    reveal_strlit("1");
    lemma_flag_pair_writes(f.unpackaged is Some, "unpackaged"@, dropped);
    lemma_flag_pair_writes(f.filename is Some, "filename"@, dropped);
    assert(carried(s[17]) == flag_pair(f.unpackaged is Some, "unpackaged"@, dropped));
    assert(carried(s[18]) == flag_pair(f.filename is Some, "filename"@, dropped));
    lemma_paging_pairs_write(offset, total);
    assert(carried(s[19]) + carried(s[20]) == paging_pairs(offset, total));
    reveal_strlit("q");
    reveal_strlit("suitability");
    reveal_strlit("user_score");
    reveal_strlit("initial");
    reveal_strlit("artist");
    reveal_strlit("favorite");
    reveal_strlit("melody");
    reveal_strlit("encoding_source");
    reveal_strlit("granularity");
    reveal_strlit("kind");
    reveal_strlit("language");
    reveal_strlit("tags");
    reveal_strlit("copies");
    reveal_strlit("added");
    reveal_strlit("versions");
    reveal_strlit("favorited");
    reveal_strlit("sort");
    assert(written_pairs(f.link_pairs(dropped, offset, total)) =~= f.filter_parts(dropped) + paging_parts(offset, total));
}

} // verus!

verus! {

/// Whether no two pairs of a list share a key.
pub open spec fn keys_distinct(s: Seq<(Seq<char>, Seq<char>)>) -> bool {
    forall|i: int, j: int| 0 <= i < j < s.len() ==> #[trigger] s[i].0 != #[trigger] s[j].0
}

/// Every pair [`present`] keeps is one of the list's, and carries something.
proof fn lemma_present_elements(s: Seq<(Seq<char>, Seq<char>)>)
    ensures
        forall|i: int| 0 <= i < present(s).len() ==> exists|j: int| 0 <= j < s.len() && #[trigger] present(s)[i] == s[j] && s[j].1.len() > 0,
    decreases s.len(),
{
    if s.len() > 0 {
        lemma_present_elements(s.drop_last());
        let p = present(s.drop_last());
        assert forall|i: int| 0 <= i < present(s).len() implies exists|j: int| 0 <= j < s.len() && #[trigger] present(s)[i] == s[j] && s[j].1.len() > 0 by {
            if i < p.len() {
                let j = choose|j: int| 0 <= j < s.drop_last().len() && p[i] == s.drop_last()[j] && s.drop_last()[j].1.len() > 0;
                assert(present(s)[i] == s[j]);
            } else {
                assert(present(s)[i] == s[s.len() - 1]);
            }
        }
    }
}

/// Keeping the pairs that carry something keeps their keys apart.
proof fn lemma_present_keys_distinct(s: Seq<(Seq<char>, Seq<char>)>)
    requires
        keys_distinct(s),
    ensures
        keys_distinct(present(s)),
    decreases s.len(),
{
    if s.len() > 0 {
        let rest = s.drop_last();
        assert(keys_distinct(rest)) by {
            assert forall|i: int, j: int| 0 <= i < j < rest.len() implies #[trigger] rest[i].0 != #[trigger] rest[j].0 by {
                assert(rest[i] == s[i] && rest[j] == s[j]);
            }
        }
        lemma_present_keys_distinct(rest);
        lemma_present_elements(rest);
        let p = present(rest);
        let q = present(s);
        assert forall|i: int, j: int| 0 <= i < j < q.len() implies #[trigger] q[i].0 != #[trigger] q[j].0 by {
            if j < p.len() {
                assert(q[i] == p[i] && q[j] == p[j]);
            } else {
                assert(q[j] == s.last());
                assert(q[i] == p[i]);
                let k = choose|k: int| 0 <= k < rest.len() && #[trigger] p[i] == rest[k] && rest[k].1.len() > 0;
                assert(rest[k] == s[k]);
                assert(s[k].0 != s[s.len() - 1].0);
            }
        }
    }
}

/// The first value under a key of a non-empty list: the first pair's, when it has the key.
proof fn lemma_value_under_front(ps: Seq<(Seq<char>, Seq<char>)>, k: Seq<char>)
    requires
        ps.len() > 0,
    ensures
        value_under(ps, k) == if ps[0].0 == k {
            Some(ps[0].1)
        } else {
            value_under(ps.drop_first(), k)
        },
{
    if ps[0].0 != k {
        let r = first_under(ps.drop_first(), k);
        lemma_first_under(ps.drop_first(), k);
        if r >= 0 {
            assert(ps[r + 1] == ps.drop_first()[r]);
        }
    }
}

/// The first value under a key of two lists one after the other: the first list's, when it has
/// one.
pub proof fn lemma_value_under_add(a: Seq<(Seq<char>, Seq<char>)>, b: Seq<(Seq<char>, Seq<char>)>, k: Seq<char>)
    ensures
        value_under(a + b, k) == if value_under(a, k) is Some {
            value_under(a, k)
        } else {
            value_under(b, k)
        },
    decreases a.len(),
{
    if a.len() == 0 {
        assert(a + b =~= b);
    } else {
        lemma_value_under_front(a + b, k);
        lemma_value_under_front(a, k);
        assert((a + b).drop_first() =~= a.drop_first() + b);
        assert((a + b)[0] == a[0]);
        lemma_value_under_add(a.drop_first(), b, k);
    }
}

/// Where the keys are apart, the first value under a key of the pairs that carry something is the
/// value of the one pair with that key, if it carries something.
proof fn lemma_value_under_present(s: Seq<(Seq<char>, Seq<char>)>, k: Seq<char>)
    requires
        keys_distinct(s),
    ensures
        forall|j: int| 0 <= j < s.len() && #[trigger] s[j].0 == k ==> value_under(present(s), k) == if s[j].1.len() > 0 {
            Some(s[j].1)
        } else {
            None
        },
        (forall|j: int| 0 <= j < s.len() ==> #[trigger] s[j].0 != k) ==> value_under(present(s), k) is None,
    decreases s.len(),
{
    if s.len() > 0 {
        let rest = s.drop_last();
        assert(keys_distinct(rest)) by {
            assert forall|i: int, j: int| 0 <= i < j < rest.len() implies #[trigger] rest[i].0 != #[trigger] rest[j].0 by {
                assert(rest[i] == s[i] && rest[j] == s[j]);
            }
        }
        lemma_value_under_present(rest, k);
        lemma_value_under_add(present(rest), carried(s.last()), k);
        let c = carried(s.last());
        if c.len() > 0 {
            lemma_value_under_front(c, k);
            assert(c.drop_first().len() == 0);
        }
        assert forall|j: int| 0 <= j < s.len() && #[trigger] s[j].0 == k implies value_under(present(s), k) == if s[j].1.len() > 0 {
            Some(s[j].1)
        } else {
            None
        } by {
            if j < s.len() - 1 {
                assert(rest[j] == s[j]);
                assert(s[j].0 != s[s.len() - 1].0);
            } else {
                assert forall|i: int| 0 <= i < rest.len() implies #[trigger] rest[i].0 != k by {
                    assert(rest[i] == s[i]);
                }
            }
        }
        if forall|j: int| 0 <= j < s.len() ==> #[trigger] s[j].0 != k {
            assert forall|i: int| 0 <= i < rest.len() implies #[trigger] rest[i].0 != k by {
                assert(rest[i] == s[i]);
            }
            assert(s[s.len() - 1].0 != k);
        }
    }
}

/// Pairs whose keys are apart and whose numbers read have nothing wrong with them.
proof fn lemma_no_problem(ps: Seq<(Seq<char>, Seq<char>)>, from: int)
    requires
        keys_distinct(ps),
        forall|j: int| 0 <= j < ps.len() && number_key(#[trigger] ps[j].0) ==> u32_value(ps[j].1) is Ok,
        0 <= from,
    ensures
        first_problem(ps, from) is None,
    decreases ps.len() - from,
{
    if from < ps.len() {
        let k = ps[from].0;
        lemma_first_under(ps, k);
        let f = first_under(ps, k);
        if f != from {
            if f >= 0 && f < from {
                assert(ps[f].0 == k);
            }
        }
        assert(f == from);
        assert(pair_problem(ps, from) is None);
        lemma_no_problem(ps, from + 1);
    }
}

/// Reading digits goes on from whatever was read before them.
proof fn lemma_digits_value_add(a: Seq<char>, b: Seq<char>, value: nat)
    ensures
        digits_value(a + b, value) == match digits_value(a, value) {
            Ok(v) => digits_value(b, v),
            Err(e) => Err(e),
        },
    decreases a.len(),
{
    if a.len() == 0 {
        assert(a + b =~= b);
    } else {
        assert((a + b)[0] == a[0]);
        assert((a + b).drop_first() =~= a.drop_first() + b);
        if '0' <= a[0] && a[0] <= '9' {
            let next = value * 10 + digit_value(a[0]);
            if next <= u32::MAX {
                lemma_digits_value_add(a.drop_first(), b, next);
            }
        }
    }
}

/// A number written in decimal reads back as itself.
pub proof fn lemma_decimal_reads_back(n: nat)
    requires
        n <= u32::MAX,
    ensures
        u32_value(decimal(n)) == Ok::<nat, NumberError>(n),
{
    lemma_decimal_digits_value(n);
    lemma_decimal_digits(n);
    if decimal(n).len() == 1 {
        let c = decimal(n)[0];
        assert(is_digit(c));
        assert(48 <= c as u32 <= 57);
    }
    assert(is_digit(decimal(n)[0]));
    let c0 = decimal(n)[0];
    assert(48 <= c0 as u32 <= 57);
}

proof fn lemma_decimal_digits_value(n: nat)
    requires
        n <= u32::MAX,
    ensures
        digits_value(decimal(n), 0) == Ok::<nat, NumberError>(n),
    decreases n,
{
    let d = digit_char(n % 10);
    assert(48 <= d as u32 <= 57);
    assert('0' <= d && d <= '9');
    assert(digit_value(d) == n % 10);
    assert(seq![d].drop_first() =~= Seq::<char>::empty());
    assert(digits_value(Seq::<char>::empty(), n) == Ok::<nat, NumberError>(n));
    if n < 10 {
        assert(decimal(n) =~= seq![d]);
        assert(seq![d][0] == d);
        assert(digits_value(seq![d], 0) == digits_value(seq![d].drop_first(), n));
    } else {
        lemma_decimal_digits_value(n / 10);
        assert(decimal(n) == decimal(n / 10) + seq![d]);
        lemma_digits_value_add(decimal(n / 10), seq![d], 0);
        assert((n / 10) * 10 + n % 10 == n);
        assert(seq![d][0] == d);
        assert(digits_value(seq![d], n / 10) == digits_value(seq![d].drop_first(), n));
    }
}

} // verus!

verus! {

// -- tags ----------------------------------------------------------------------------------

/// Whether a text holds no comma.
pub open spec fn comma_free(t: Seq<char>) -> bool {
    !t.contains(',')
}

/// A list of texts inserted into in order.
pub open spec fn sorted_insert(s: Seq<Seq<char>>, x: Seq<char>) -> Seq<Seq<char>>
    decreases s.len(),
{
    if s.len() == 0 {
        seq![x]
    } else if chars_lt(x, s[0]) {
        seq![x] + s
    } else {
        seq![s[0]] + sorted_insert(s.drop_first(), x)
    }
}

proof fn lemma_sorted_insert(s: Seq<Seq<char>>, x: Seq<char>)
    requires
        strictly_sorted(s),
        !s.contains(x),
    ensures
        strictly_sorted(sorted_insert(s, x)),
        sorted_insert(s, x).to_set() == s.to_set().insert(x),
        sorted_insert(s, x).len() > 0,
        sorted_insert(s, x)[0] == x || (s.len() > 0 && sorted_insert(s, x)[0] == s[0]),
    decreases s.len(),
{
    if s.len() == 0 {
        assert(seq![x].to_set() =~= Set::<Seq<char>>::empty().insert(x)) by {
            assert(seq![x][0] == x);
            assert(seq![x].contains(x));
        }
        assert(s.to_set() =~= Set::<Seq<char>>::empty());
    } else if chars_lt(x, s[0]) {
        let r = seq![x] + s;
        assert forall|i: int, j: int| 0 <= i < j < r.len() implies chars_lt(#[trigger] r[i], #[trigger] r[j]) by {
            if i == 0 {
                if j > 1 {
                    lemma_chars_lt_transitive(x, s[0], s[j - 1]);
                }
            } else {
                assert(r[i] == s[i - 1] && r[j] == s[j - 1]);
            }
        }
        assert(r.to_set() =~= s.to_set().insert(x)) by {
            assert forall|y: Seq<char>| r.contains(y) <==> s.to_set().insert(x).contains(y) by {
                if r.contains(y) {
                    let k = choose|k: int| 0 <= k < r.len() && r[k] == y;
                    if k > 0 {
                        assert(s[k - 1] == y);
                    }
                }
                if s.contains(y) {
                    let k = choose|k: int| 0 <= k < s.len() && s[k] == y;
                    assert(r[k + 1] == y);
                }
                if y == x {
                    assert(r[0] == x);
                }
            }
        }
    } else {
        let rest = s.drop_first();
        assert(strictly_sorted(rest)) by {
            assert forall|i: int, j: int| 0 <= i < j < rest.len() implies chars_lt(#[trigger] rest[i], #[trigger] rest[j]) by {
                assert(rest[i] == s[i + 1] && rest[j] == s[j + 1]);
            }
        }
        assert(!rest.contains(x)) by {
            if rest.contains(x) {
                let k = choose|k: int| 0 <= k < rest.len() && rest[k] == x;
                assert(s[k + 1] == x);
            }
        }
        lemma_sorted_insert(rest, x);
        let tail = sorted_insert(rest, x);
        let r = seq![s[0]] + tail;
        lemma_chars_lt_total(x, s[0]);
        assert(x != s[0]) by {
            assert(s[0] == s[0]);
        }
        assert forall|k: int| 0 <= k < tail.len() implies chars_lt(s[0], #[trigger] tail[k]) by {
            assert(tail.to_set().contains(tail[k]));
            if tail[k] == x {
            } else {
                assert(rest.to_set().contains(tail[k]));
                let m = choose|m: int| 0 <= m < rest.len() && rest[m] == tail[k];
                assert(s[m + 1] == tail[k]);
            }
        }
        assert forall|i: int, j: int| 0 <= i < j < r.len() implies chars_lt(#[trigger] r[i], #[trigger] r[j]) by {
            if i == 0 {
                assert(r[j] == tail[j - 1]);
            } else {
                assert(r[i] == tail[i - 1] && r[j] == tail[j - 1]);
            }
        }
        assert(r.to_set() =~= s.to_set().insert(x)) by {
            assert forall|y: Seq<char>| r.contains(y) <==> s.to_set().insert(x).contains(y) by {
                if r.contains(y) {
                    let k = choose|k: int| 0 <= k < r.len() && r[k] == y;
                    if k > 0 {
                        assert(tail.to_set().contains(y));
                        if y != x {
                            assert(rest.to_set().contains(y));
                            let m = choose|m: int| 0 <= m < rest.len() && rest[m] == y;
                            assert(s[m + 1] == y);
                        }
                    }
                }
                if s.contains(y) {
                    let k = choose|k: int| 0 <= k < s.len() && s[k] == y;
                    if k == 0 {
                        assert(r[0] == y);
                    } else {
                        assert(rest[k - 1] == y);
                        assert(rest.to_set().contains(y));
                        assert(tail.to_set().contains(y));
                        let m = choose|m: int| 0 <= m < tail.len() && tail[m] == y;
                        assert(r[m + 1] == y);
                    }
                }
                if y == x {
                    assert(tail.to_set().contains(x));
                    let m = choose|m: int| 0 <= m < tail.len() && tail[m] == x;
                    assert(r[m + 1] == x);
                }
            }
        }
    }
}

/// Every finite set of texts has a list holding it in strictly increasing order, so
/// [`sorted_list`] names one.
pub proof fn lemma_sorted_list_exists(set: Set<Seq<char>>)
    requires
        set.finite(),
    ensures
        strictly_sorted(sorted_list(set)),
        sorted_list(set).to_set() == set,
    decreases set.len(),
{
    if set.len() == 0 {
        let e = Seq::<Seq<char>>::empty();
        assert(e.to_set() =~= set) by {
            assert(set =~= Set::<Seq<char>>::empty());
        }
        assert(strictly_sorted(e) && e.to_set() == set);
    } else {
        let x = set.choose();
        assert(set.contains(x));
        let rest = set.remove(x);
        lemma_sorted_list_exists(rest);
        let l = sorted_list(rest);
        assert(!l.contains(x)) by {
            if l.contains(x) {
                assert(l.to_set().contains(x));
            }
        }
        lemma_sorted_insert(l, x);
        let w = sorted_insert(l, x);
        assert(w.to_set() =~= set);
        assert(strictly_sorted(w) && w.to_set() == set);
    }
}

/// A list less the one tag, if any, keeps its order and holds nothing new.
proof fn lemma_without_tag(l: Seq<Seq<char>>, one: Option<Seq<char>>)
    requires
        strictly_sorted(l),
    ensures
        strictly_sorted(without_tag(l, one)),
        forall|i: int| 0 <= i < without_tag(l, one).len() ==> l.contains(#[trigger] without_tag(l, one)[i]),
        one is None ==> without_tag(l, one) == l,
    decreases l.len(),
{
    if l.len() > 0 {
        let rest = l.drop_last();
        assert(strictly_sorted(rest)) by {
            assert forall|i: int, j: int| 0 <= i < j < rest.len() implies chars_lt(#[trigger] rest[i], #[trigger] rest[j]) by {
                assert(rest[i] == l[i] && rest[j] == l[j]);
            }
        }
        lemma_without_tag(rest, one);
        let w = without_tag(rest, one);
        assert forall|i: int| 0 <= i < w.len() implies rest.contains(#[trigger] w[i]) by {}
        assert forall|i: int| 0 <= i < w.len() implies chars_lt(#[trigger] w[i], l.last()) by {
            let m = choose|m: int| 0 <= m < rest.len() && rest[m] == w[i];
            assert(l[m] == w[i]);
        }
        let r = without_tag(l, one);
        assert forall|i: int, j: int| 0 <= i < j < r.len() implies chars_lt(#[trigger] r[i], #[trigger] r[j]) by {
            if j < w.len() {
                assert(r[i] == w[i] && r[j] == w[j]);
            } else {
                assert(r[i] == w[i]);
            }
        }
        assert forall|i: int| 0 <= i < r.len() implies l.contains(#[trigger] r[i]) by {
            if i < w.len() {
                assert(r[i] == w[i]);
                let m = choose|m: int| 0 <= m < rest.len() && rest[m] == w[i];
                assert(l[m] == w[i]);
            } else {
                assert(l[l.len() - 1] == r[i]);
            }
        }
        if one is None {
            assert(r =~= l);
        }
    }
}

} // verus!

verus! {

/// The pieces a text splits into at a character do not hold it.
proof fn lemma_split_pieces_free(t: Seq<char>, c: char)
    ensures
        forall|i: int| 0 <= i < split_on(t, c).len() ==> !(#[trigger] split_on(t, c)[i]).contains(c),
        split_on(t, c).len() >= 1,
    decreases t.len(),
{
    lemma_index_of(t, c);
    let k = index_of(t, c);
    if k >= 0 && k < t.len() {
        lemma_split_pieces_free(t.skip(k + 1), c);
        let rest = split_on(t.skip(k + 1), c);
        assert forall|i: int| 0 <= i < split_on(t, c).len() implies !(#[trigger] split_on(t, c)[i]).contains(c) by {
            if i == 0 {
                assert(split_on(t, c)[0] == t.take(k));
                if t.take(k).contains(c) {
                    let j = choose|j: int| 0 <= j < t.take(k).len() && t.take(k)[j] == c;
                    assert(t[j] == c);
                }
            } else {
                assert(split_on(t, c)[i] == rest[i - 1]);
            }
        }
    } else {
        assert(split_on(t, c) == seq![t]);
        assert(split_on(t, c)[0] == t);
    }
}

/// What trimming leaves is part of what was there.
pub proof fn lemma_trim_within(x: Seq<char>, c: char)
    ensures
        trim(x).contains(c) ==> x.contains(c),
{
    lemma_trim_start_within(x, c);
    lemma_trim_end_within(trim_start(x), c);
}

proof fn lemma_trim_start_within(x: Seq<char>, c: char)
    ensures
        trim_start(x).contains(c) ==> x.contains(c),
    decreases x.len(),
{
    if x.len() > 0 && white_space(x[0]) {
        lemma_trim_start_within(x.drop_first(), c);
        if x.drop_first().contains(c) {
            let j = choose|j: int| 0 <= j < x.drop_first().len() && x.drop_first()[j] == c;
            assert(x[j + 1] == c);
        }
    }
}

proof fn lemma_trim_end_within(x: Seq<char>, c: char)
    ensures
        trim_end(x).contains(c) ==> x.contains(c),
    decreases x.len(),
{
    if x.len() > 0 && white_space(x.last()) {
        lemma_trim_end_within(x.drop_last(), c);
        if x.drop_last().contains(c) {
            let j = choose|j: int| 0 <= j < x.drop_last().len() && x.drop_last()[j] == c;
            assert(x[j] == c);
        }
    }
}

/// What trimming leaves starts and ends with something other than white space.
proof fn lemma_trim_ends(x: Seq<char>)
    ensures
        trim(x).len() > 0 ==> !white_space(trim(x)[0]) && !white_space(trim(x).last()),
{
    lemma_trim_start_ends(x);
    lemma_trim_end_keeps_front(trim_start(x));
}

proof fn lemma_trim_start_ends(x: Seq<char>)
    ensures
        trim_start(x).len() > 0 ==> !white_space(trim_start(x)[0]),
    decreases x.len(),
{
    if x.len() > 0 && white_space(x[0]) {
        lemma_trim_start_ends(x.drop_first());
    }
}

proof fn lemma_trim_end_keeps_front(y: Seq<char>)
    ensures
        trim_end(y).len() > 0 ==> trim_end(y)[0] == y[0] && !white_space(trim_end(y).last()),
    decreases y.len(),
{
    if y.len() > 0 && white_space(y.last()) {
        lemma_trim_end_keeps_front(y.drop_last());
    }
}

/// A text that starts and ends with something other than white space is its own trim.
proof fn lemma_trim_of_trimmed(u: Seq<char>)
    requires
        u.len() > 0 ==> !white_space(u[0]) && !white_space(u.last()),
    ensures
        trim(u) == u,
{
}

/// Trimming twice is trimming once.
pub proof fn lemma_trim_twice(x: Seq<char>)
    ensures
        trim(trim(x)) == trim(x),
{
    lemma_trim_ends(x);
    lemma_trim_of_trimmed(trim(x));
}

/// Folding a tag a second time changes nothing, and a comma-free text folds to a comma-free one.
pub proof fn lemma_fold_twice(x: Seq<char>)
    ensures
        folded_tag(folded_tag(x)) == folded_tag(x),
        comma_free(x) ==> comma_free(folded_tag(x)),
{
    let t = trim(x);
    let u = folded_tag(x);
    assert(u == t.map_values(|c: char| ascii_lower(c)));
    lemma_trim_ends(x);
    if u.len() > 0 {
        assert(u[0] == ascii_lower(t[0]));
        assert(u.last() == ascii_lower(t.last()));
    }
    lemma_trim_of_trimmed(u);
    assert(u.map_values(|c: char| ascii_lower(c)) =~= u);
    lemma_trim_within(x, ',');
    if comma_free(x) && u.contains(',') {
        let j = choose|j: int| 0 <= j < u.len() && u[j] == ',';
        assert(ascii_lower(t[j]) == ',');
        assert(t[j] == ',');
        assert(t.contains(','));
    }
}

/// Every tag a filter chooses is something, holds no comma, and is its own fold.
proof fn lemma_chosen_tags_are_folded(tags: Seq<char>, add_tag: Seq<char>)
    ensures
        chosen_set(tags, add_tag).finite(),
        forall|t: Seq<char>| #[trigger] chosen_set(tags, add_tag).contains(t) ==> t.len() > 0 && comma_free(t)
            && folded_tag(t) == t,
{
    let pieces = split_on(tags, ',');
    lemma_split_pieces_free(tags, ',');
    let images = pieces.map_values(|p: Seq<char>| folded_tag(p)).to_set();
    vstd::seq_lib::seq_to_set_is_finite(pieces.map_values(|p: Seq<char>| folded_tag(p)));
    assert(named_tags(tags).subset_of(images)) by {
        assert forall|t: Seq<char>| named_tags(tags).contains(t) implies images.contains(t) by {
            let i = choose|i: int| 0 <= i < pieces.len() && #[trigger] folded_tag(pieces[i]) == t;
            assert(pieces.map_values(|p: Seq<char>| folded_tag(p))[i] == t);
        }
    }
    vstd::set_lib::lemma_set_subset_finite(images, named_tags(tags));
    assert forall|t: Seq<char>| #[trigger] named_tags(tags).contains(t) implies t.len() > 0 && comma_free(t)
        && folded_tag(t) == t by {
        let i = choose|i: int| 0 <= i < pieces.len() && #[trigger] folded_tag(pieces[i]) == t;
        lemma_fold_twice(pieces[i]);
    }
    lemma_fold_twice(add_tag);
}

/// A list joined with a separator, its first element split off.
proof fn lemma_joined_front(l: Seq<Seq<char>>, sep: Seq<char>)
    requires
        l.len() >= 2,
    ensures
        joined(l, sep) == l[0] + sep + joined(l.drop_first(), sep),
    decreases l.len(),
{
    if l.len() == 2 {
        assert(l.drop_last() =~= seq![l[0]]);
        assert(l.drop_first() =~= seq![l[1]]);
        assert(joined(l.drop_last(), sep) == l[0]);
    } else {
        lemma_joined_front(l.drop_last(), sep);
        assert(l.drop_last().drop_first() =~= l.drop_first().drop_last());
        assert(l.drop_first().last() == l.last());
        assert(l.drop_last()[0] == l[0]);
    }
}

/// Comma-free texts joined with commas split back into themselves.
proof fn lemma_split_joined(l: Seq<Seq<char>>)
    requires
        l.len() > 0,
        forall|i: int| 0 <= i < l.len() ==> comma_free(#[trigger] l[i]),
    ensures
        split_on(joined(l, ","@), ',') == l,
    decreases l.len(),
{
    reveal_strlit(",");
    if l.len() == 1 {
        lemma_index_of(l[0], ',');
        assert(split_on(l[0], ',') == seq![l[0]]);
        assert(seq![l[0]] =~= l);
    } else {
        lemma_joined_front(l, ","@);
        let rest = joined(l.drop_first(), ","@);
        let whole = l[0] + ","@ + rest;
        assert(first_at(whole, ',', l[0].len() as int)) by {
            assert(whole[l[0].len() as int] == ',');
            assert forall|j: int| 0 <= j < l[0].len() implies whole[j] != ',' by {
                assert(whole[j] == l[0][j]);
            }
        }
        lemma_first_at_is_index_of(whole, ',', l[0].len() as int);
        assert(whole.take(l[0].len() as int) =~= l[0]);
        assert(whole.skip(l[0].len() as int + 1) =~= rest);
        lemma_split_joined(l.drop_first());
        assert(seq![l[0]] + l.drop_first() =~= l);
    }
}

/// The tags a comma-joined list of folded, comma-free tags names are those tags.
proof fn lemma_named_tags_of_joined(l: Seq<Seq<char>>)
    requires
        forall|i: int| 0 <= i < l.len() ==> (#[trigger] l[i]).len() > 0 && comma_free(l[i]) && folded_tag(l[i]) == l[i],
    ensures
        named_tags(joined(l, ","@)) == l.to_set(),
{
    if l.len() == 0 {
        assert(joined(l, ","@) == Seq::<char>::empty());
        assert(split_on(Seq::<char>::empty(), ',') == seq![Seq::<char>::empty()]);
        lemma_fold_twice(Seq::<char>::empty());
        assert(trim(Seq::<char>::empty()) == Seq::<char>::empty());
        assert(folded_tag(Seq::<char>::empty()) =~= Seq::<char>::empty());
        assert(named_tags(joined(l, ","@)) =~= l.to_set()) by {
            assert forall|t: Seq<char>| !named_tags(joined(l, ","@)).contains(t) by {
                if named_tags(joined(l, ","@)).contains(t) {
                    let i = choose|i: int| 0 <= i < 1 && #[trigger] folded_tag(seq![Seq::<char>::empty()][i]) == t;
                    assert(seq![Seq::<char>::empty()][i] == Seq::<char>::empty());
                }
            }
        }
    } else {
        lemma_split_joined(l);
        assert(named_tags(joined(l, ","@)) =~= l.to_set()) by {
            assert forall|t: Seq<char>| named_tags(joined(l, ","@)).contains(t) <==> l.to_set().contains(t) by {
                if named_tags(joined(l, ","@)).contains(t) {
                    let i = choose|i: int| 0 <= i < l.len() && #[trigger] folded_tag(l[i]) == t;
                }
                if l.contains(t) {
                    let i = choose|i: int| 0 <= i < l.len() && l[i] == t;
                    assert(folded_tag(l[i]) == t);
                }
            }
        }
    }
}

} // verus!

verus! {

// -- what a link's pairs read as -----------------------------------------------------------

/// Every key a link carries is plain.
proof fn lemma_link_keys_plain()
    ensures
        forall|i: int| 0 <= i < 21 ==> #[trigger] plain_key(link_key(i)),
{
    reveal_strlit("q");
    reveal_strlit("suitability");
    reveal_strlit("user_score");
    reveal_strlit("initial");
    reveal_strlit("artist");
    reveal_strlit("favorite");
    reveal_strlit("melody");
    reveal_strlit("encoding_source");
    reveal_strlit("granularity");
    reveal_strlit("kind");
    reveal_strlit("language");
    reveal_strlit("tags");
    reveal_strlit("copies");
    reveal_strlit("added");
    reveal_strlit("versions");
    reveal_strlit("favorited");
    reveal_strlit("sort");
    reveal_strlit("unpackaged");
    reveal_strlit("filename");
    reveal_strlit("offset");
    reveal_strlit("total");
}

/// No key a link carries is the one a tag is added under.
proof fn lemma_add_tag_is_not_a_link_key()
    ensures
        forall|i: int| 0 <= i < 21 ==> #[trigger] link_key(i) != "add_tag"@,
{
    reveal_strlit("add_tag");
    reveal_strlit("q");
    reveal_strlit("suitability");
    reveal_strlit("user_score");
    reveal_strlit("initial");
    reveal_strlit("artist");
    reveal_strlit("favorite");
    reveal_strlit("melody");
    reveal_strlit("encoding_source");
    reveal_strlit("granularity");
    reveal_strlit("kind");
    reveal_strlit("language");
    reveal_strlit("tags");
    reveal_strlit("copies");
    reveal_strlit("added");
    reveal_strlit("versions");
    reveal_strlit("favorited");
    reveal_strlit("sort");
    reveal_strlit("unpackaged");
    reveal_strlit("filename");
    reveal_strlit("offset");
    reveal_strlit("total");
    assert forall|i: int| 0 <= i < 21 implies #[trigger] link_key(i) != "add_tag"@ by {
        if link_key(i) == "add_tag"@ {
            assert(link_key(i).len() == 7);
            assert(link_key(i)[0] == 'a' && link_key(i)[1] == 'd');
        }
    }
}

/// What a link's pairs say: their keys are plain and apart, their numbers read, under each key
/// is what the link carries there, and nothing is under the key a tag is added by.
pub proof fn lemma_link_pairs_read(f: FilterQuery, dropped: Seq<char>, offset: u32, total: Option<u32>)
    ensures
        keys_distinct(f.link_pairs(dropped, offset, total)),
        forall|j: int| 0 <= j < f.link_pairs(dropped, offset, total).len() ==> plain_key(#[trigger] f.link_pairs(dropped, offset, total)[j].0),
        first_problem(f.link_pairs(dropped, offset, total), 0) is None,
        forall|i: int| 0 <= i < 21 ==> #[trigger] text_field(f.link_pairs(dropped, offset, total), link_key(i)) == f.link_value(dropped, offset, total, i),
        forall|i: int| 0 <= i < 21 ==> (#[trigger] value_under(f.link_pairs(dropped, offset, total), link_key(i)) is Some <==> f.link_value(dropped, offset, total, i).len() > 0),
        value_under(f.link_pairs(dropped, offset, total), "add_tag"@) is None,
{
    let slots = f.link_slots(dropped, offset, total);
    let ps = f.link_pairs(dropped, offset, total);
    lemma_link_keys_distinct();
    lemma_link_keys_plain();
    lemma_add_tag_is_not_a_link_key();
    assert(keys_distinct(slots)) by {
        assert forall|i: int, j: int| 0 <= i < j < slots.len() implies #[trigger] slots[i].0 != #[trigger] slots[j].0 by {
            assert(slots[i].0 == link_key(i) && slots[j].0 == link_key(j));
        }
    }
    lemma_present_keys_distinct(slots);
    lemma_present_elements(slots);
    assert forall|j: int| 0 <= j < ps.len() implies plain_key(#[trigger] ps[j].0) by {
        let k = choose|k: int| 0 <= k < slots.len() && ps[j] == slots[k] && slots[k].1.len() > 0;
        assert(slots[k].0 == link_key(k));
    }
    reveal_strlit("offset");
    reveal_strlit("total");
    assert forall|j: int| 0 <= j < ps.len() && number_key(#[trigger] ps[j].0) implies u32_value(ps[j].1) is Ok by {
        let k = choose|k: int| 0 <= k < slots.len() && ps[j] == slots[k] && slots[k].1.len() > 0;
        assert(slots[k].0 == link_key(k));
        if ps[j].0 == "offset"@ {
            if k != 19 {
                assert(link_key(19) == "offset"@);
            }
            lemma_decimal_reads_back(offset as nat);
        } else {
            if k != 20 {
                assert(link_key(20) == "total"@);
            }
            if let Some(t) = total {
                lemma_decimal_reads_back(t as nat);
            }
        }
    }
    lemma_no_problem(ps, 0);
    assert forall|i: int| 0 <= i < 21 implies #[trigger] text_field(ps, link_key(i)) == f.link_value(dropped, offset, total, i) by {
        lemma_value_under_present(slots, link_key(i));
        assert(slots[i].0 == link_key(i));
        if f.link_value(dropped, offset, total, i).len() == 0 {
            assert(f.link_value(dropped, offset, total, i) =~= Seq::<char>::empty());
        }
    }
    assert forall|i: int| 0 <= i < 21 implies (#[trigger] value_under(ps, link_key(i)) is Some <==> f.link_value(dropped, offset, total, i).len() > 0) by {
        lemma_value_under_present(slots, link_key(i));
        assert(slots[i].0 == link_key(i));
    }
    lemma_value_under_present(slots, "add_tag"@);
    assert forall|j: int| 0 <= j < slots.len() implies #[trigger] slots[j].0 != "add_tag"@ by {
        assert(slots[j].0 == link_key(j));
    }
}

} // verus!

verus! {

/// An empty text reads as no filter at all, which is written as nothing.
proof fn lemma_nothing_reads_as_nothing()
    ensures
        suitability_spelling(suitability_reading(seq![])) == Seq::<char>::empty(),
        initial_spelling(initial_reading(seq![])) == Seq::<char>::empty(),
        copies_spelling(copies_reading(seq![])) == Seq::<char>::empty(),
        added_spelling(added_reading(seq![])) == Seq::<char>::empty(),
        versions_spelling(versions_reading(seq![])) == Seq::<char>::empty(),
        favorited_spelling(favorited_reading(seq![])) == Seq::<char>::empty(),
        trim(seq![]) == Seq::<char>::empty(),
{
    reveal_strlit("");
    reveal_strlit("8-10");
    reveal_strlit("5-7");
    reveal_strlit("0-4");
    reveal_strlit("1");
    reveal_strlit("2-10");
    reveal_strlit("10+");
    reveal_strlit("2+");
    reveal_strlit("1d");
    reveal_strlit("7d");
    reveal_strlit("30d");
    reveal_strlit("30d+");
    reveal_strlit("all");
    reveal_strlit("in");
    reveal_strlit("out");
    reveal_strlit("0-9");
    reveal_strlit("#");
}

/// The tags written again from what a link's tags read back as are the tags the link carried.
proof fn lemma_tags_read_back(f: FilterQuery, dropped: Seq<char>, g_tags: Seq<char>, g_add_tag: Seq<char>)
    requires
        g_add_tag == Seq::<char>::empty(),
        g_tags == if link_key(11) == dropped {
            Seq::<char>::empty()
        } else {
            f.written_value(dropped, 11)
        },
    ensures
        joined(without_tag(sorted_list(chosen_set(g_tags, g_add_tag)), one_tag_dropped(""@)), ","@)
            == g_tags,
{
    reveal_strlit("");
    reveal_strlit("tag:");
    assert(one_tag_dropped(""@) is None);
    let set = chosen_set(f.tags@, f.add_tag@);
    lemma_chosen_tags_are_folded(f.tags@, f.add_tag@);
    lemma_sorted_list_exists(set);
    lemma_without_tag(sorted_list(set), one_tag_dropped(dropped));
    let kept = f.kept_tag_list(dropped);
    let list = if link_key(11) == dropped {
        Seq::<Seq<char>>::empty()
    } else {
        kept
    };
    assert(g_tags == joined(list, ","@));
    assert forall|i: int| 0 <= i < list.len() implies (#[trigger] list[i]).len() > 0 && comma_free(list[i]) && folded_tag(list[i]) == list[i] by {
        let m = choose|m: int| 0 <= m < sorted_list(set).len() && sorted_list(set)[m] == list[i];
        assert(sorted_list(set).to_set().contains(list[i]));
        assert(set.contains(list[i]));
    }
    assert(strictly_sorted(list));
    lemma_named_tags_of_joined(list);
    lemma_fold_twice(Seq::<char>::empty());
    assert(folded_tag(Seq::<char>::empty()) =~= Seq::<char>::empty());
    assert(tag_named(g_add_tag) is None);
    assert(chosen_set(g_tags, g_add_tag) == list.to_set());
    crate::browse::lemma_sorted_list_is(list);
    lemma_without_tag(list, None);
}

/// Writing a filter read back from a link writes, key by key, what the link carried.
#[verifier::rlimit(40)]
proof fn lemma_rewritten_value(f: FilterQuery, dropped: Seq<char>, offset: u32, total: Option<u32>, g: FilterQuery, i: int)
    requires
        0 <= i < 19,
        g.reads_from(f.link_pairs(dropped, offset, total)),
    ensures
        g.written_value(""@, i) == f.link_value(dropped, offset, total, i),
{
    let ps = f.link_pairs(dropped, offset, total);
    lemma_link_pairs_read(f, dropped, offset, total);
    assert(text_field(ps, link_key(i)) == f.link_value(dropped, offset, total, i));
    lemma_nothing_reads_as_nothing();
    crate::filter::law_reading_a_spelling_changes_nothing(f.suitability@);
    crate::filter::law_reading_a_spelling_changes_nothing(f.initial@);
    crate::filter::law_reading_a_spelling_changes_nothing(f.copies@);
    crate::filter::law_reading_a_spelling_changes_nothing(f.added@);
    crate::filter::law_reading_a_spelling_changes_nothing(f.versions@);
    crate::filter::law_reading_a_spelling_changes_nothing(f.favorited@);
    lemma_trim_twice(f.artist@);
    reveal_strlit("1");
    if i == 11 {
        assert(g.add_tag@ == text_field(ps, "add_tag"@));
        assert(g.add_tag@ =~= Seq::<char>::empty());
        lemma_tags_read_back(f, dropped, g.tags@, g.add_tag@);
    }
    if i == 17 {
        assert(value_under(ps, link_key(17)) is Some <==> f.link_value(dropped, offset, total, 17).len() > 0);
    }
    if i == 18 {
        assert(value_under(ps, link_key(18)) is Some <==> f.link_value(dropped, offset, total, 18).len() > 0);
    }
}

} // verus!

verus! {

/// A filter read back from a link writes the same link: the filter the link was written from,
/// less the one filter it dropped.
pub proof fn lemma_a_link_reads_back(f: FilterQuery, dropped: Seq<char>, offset: u32, total: Option<u32>, g: FilterQuery)
    requires
        g.reads_from(f.link_pairs(dropped, offset, total)),
    ensures
        g.filter_parts(""@) == f.filter_parts(dropped),
{
    lemma_link_keys_plain();
    reveal_strlit("");
    assert forall|i: int| 0 <= i < 21 implies #[trigger] g.link_value(""@, 0, None, i) == f.link_value(dropped, 0, None, i) by {
        if i < 19 {
            lemma_rewritten_value(f, dropped, offset, total, g, i);
            assert(plain_key(link_key(i)));
            assert(link_key(i) != ""@);
        }
    }
    assert(g.link_slots(""@, 0, None) =~= f.link_slots(dropped, 0, None));
    lemma_link_pairs_are_written_as_the_parts(g, ""@, 0, None);
    lemma_link_pairs_are_written_as_the_parts(f, dropped, 0, None);
    assert(paging_parts(0, None) =~= Seq::<Seq<char>>::empty());
    assert(g.filter_parts(""@) + paging_parts(0, None) =~= g.filter_parts(""@));
    assert(f.filter_parts(dropped) + paging_parts(0, None) =~= f.filter_parts(dropped));
}

/// The body a link is, read by the decoder, is the link's pairs.
pub proof fn lemma_a_link_is_its_pairs(f: FilterQuery, dropped: Seq<char>, offset: u32, total: Option<u32>)
    ensures
        form_text(f.link_pairs(dropped, offset, total)) == joined(f.filter_parts(dropped) + paging_parts(offset, total), "&"@),
        forall|j: int| 0 <= j < f.link_pairs(dropped, offset, total).len() ==> plain_key(#[trigger] f.link_pairs(dropped, offset, total)[j].0),
        first_problem(f.link_pairs(dropped, offset, total), 0) is None,
{
    lemma_link_pairs_are_written_as_the_parts(f, dropped, offset, total);
    lemma_link_pairs_read(f, dropped, offset, total);
}

} // verus!

verus! {

/// Whether two filters draw the same bar: what [`FilterQuery::to_form`] makes of each field is the
/// same for both, and they narrow by the same tags.
pub open spec fn same_form(a: FilterQuery, b: FilterQuery) -> bool {
    &&& a.q@ == b.q@
    &&& a.artist@ == b.artist@
    &&& suitability_spelling(suitability_reading(a.suitability@)) == suitability_spelling(suitability_reading(b.suitability@))
    &&& score_spelling(score_reading(a.user_score@)) == score_spelling(score_reading(b.user_score@))
    &&& initial_spelling(initial_reading(a.initial@)) == initial_spelling(initial_reading(b.initial@))
    &&& favorited_spelling(favorited_reading(a.favorited@)) == favorited_spelling(favorited_reading(b.favorited@))
    &&& a.favorite@ == b.favorite@
    &&& a.melody@ == b.melody@
    &&& a.encoding_source@ == b.encoding_source@
    &&& a.granularity@ == b.granularity@
    &&& a.kind@ == b.kind@
    &&& language_spelling(language_reading(a.language@)) == language_spelling(language_reading(b.language@))
    &&& copies_spelling(copies_reading(a.copies@)) == copies_spelling(copies_reading(b.copies@))
    &&& added_spelling(added_reading(a.added@)) == added_spelling(added_reading(b.added@))
    &&& versions_spelling(versions_reading(a.versions@)) == versions_spelling(versions_reading(b.versions@))
    &&& (a.unpackaged is Some) == (b.unpackaged is Some)
    &&& (a.filename is Some) == (b.filename is Some)
    &&& a.sort@ == b.sort@
    &&& chosen_set(a.tags@, a.add_tag@) == chosen_set(b.tags@, b.add_tag@)
}

/// The tags a link written with nothing dropped reads back as are the filter's.
proof fn lemma_tags_read_back_as_the_same_set(f: FilterQuery, g_tags: Seq<char>, g_add_tag: Seq<char>)
    requires
        g_add_tag == Seq::<char>::empty(),
        g_tags == f.written_value(""@, 11),
    ensures
        chosen_set(g_tags, g_add_tag) == chosen_set(f.tags@, f.add_tag@),
{
    reveal_strlit("");
    reveal_strlit("tag:");
    assert(one_tag_dropped(""@) is None);
    let set = chosen_set(f.tags@, f.add_tag@);
    lemma_chosen_tags_are_folded(f.tags@, f.add_tag@);
    lemma_sorted_list_exists(set);
    lemma_without_tag(sorted_list(set), None);
    let list = f.kept_tag_list(""@);
    assert(list == sorted_list(set));
    assert forall|i: int| 0 <= i < list.len() implies (#[trigger] list[i]).len() > 0 && comma_free(list[i]) && folded_tag(list[i]) == list[i] by {
        assert(sorted_list(set).to_set().contains(list[i]));
    }
    lemma_named_tags_of_joined(list);
    lemma_fold_twice(Seq::<char>::empty());
    assert(folded_tag(Seq::<char>::empty()) =~= Seq::<char>::empty());
    assert(tag_named(g_add_tag) is None);
}

/// A filter read back from a link written with nothing dropped draws the same bar as the filter
/// the link was written from, whenever that filter's artist is already trimmed (the link carries it
/// trimmed).
#[verifier::rlimit(40)]
pub proof fn lemma_a_link_reads_back_as_the_same_form(f: FilterQuery, offset: u32, total: Option<u32>, g: FilterQuery)
    requires
        trim(f.artist@) == f.artist@,
        g.reads_from(f.link_pairs(""@, offset, total)),
    ensures
        same_form(g, f),
{
    let ps = f.link_pairs(""@, offset, total);
    lemma_link_pairs_read(f, ""@, offset, total);
    lemma_link_keys_plain();
    reveal_strlit("");
    assert forall|i: int| 0 <= i < 19 implies #[trigger] text_field(ps, link_key(i)) == f.written_value(""@, i) by {
        assert(plain_key(link_key(i)));
        assert(link_key(i) != ""@);
        assert(text_field(ps, link_key(i)) == f.link_value(""@, offset, total, i));
    }
    lemma_nothing_reads_as_nothing();
    crate::filter::law_reading_a_spelling_changes_nothing(f.suitability@);
    crate::filter::law_reading_a_spelling_changes_nothing(f.initial@);
    crate::filter::law_reading_a_spelling_changes_nothing(f.copies@);
    crate::filter::law_reading_a_spelling_changes_nothing(f.added@);
    crate::filter::law_reading_a_spelling_changes_nothing(f.versions@);
    crate::filter::law_reading_a_spelling_changes_nothing(f.favorited@);
    reveal_strlit("1");
    assert(text_field(ps, link_key(0)) == f.written_value(""@, 0));
    assert(text_field(ps, link_key(1)) == f.written_value(""@, 1));
    assert(text_field(ps, link_key(2)) == f.written_value(""@, 2));
    assert(text_field(ps, link_key(3)) == f.written_value(""@, 3));
    assert(text_field(ps, link_key(4)) == f.written_value(""@, 4));
    assert(text_field(ps, link_key(5)) == f.written_value(""@, 5));
    assert(text_field(ps, link_key(6)) == f.written_value(""@, 6));
    assert(text_field(ps, link_key(7)) == f.written_value(""@, 7));
    assert(text_field(ps, link_key(8)) == f.written_value(""@, 8));
    assert(text_field(ps, link_key(9)) == f.written_value(""@, 9));
    assert(text_field(ps, link_key(10)) == f.written_value(""@, 10));
    assert(text_field(ps, link_key(11)) == f.written_value(""@, 11));
    assert(text_field(ps, link_key(12)) == f.written_value(""@, 12));
    assert(text_field(ps, link_key(13)) == f.written_value(""@, 13));
    assert(text_field(ps, link_key(14)) == f.written_value(""@, 14));
    assert(text_field(ps, link_key(15)) == f.written_value(""@, 15));
    assert(text_field(ps, link_key(16)) == f.written_value(""@, 16));
    assert(plain_key(link_key(17)) && plain_key(link_key(18)));
    assert(link_key(17) != ""@ && link_key(18) != ""@);
    assert(value_under(ps, link_key(17)) is Some <==> f.link_value(""@, offset, total, 17).len() > 0);
    assert(value_under(ps, link_key(18)) is Some <==> f.link_value(""@, offset, total, 18).len() > 0);
    assert(optional_string(g.unpackaged) == value_under(ps, "unpackaged"@));
    assert(optional_string(g.filename) == value_under(ps, "filename"@));
    assert(g.add_tag@ == text_field(ps, "add_tag"@));
    assert(g.add_tag@ =~= Seq::<char>::empty());
    lemma_tags_read_back_as_the_same_set(f, g.tags@, g.add_tag@);
    if f.q@.len() == 0 {
        assert(g.q@ =~= f.q@);
    }
    if f.user_score@.len() == 0 {
        assert(g.user_score@ =~= f.user_score@);
    }
    if f.favorite@.len() == 0 {
        assert(g.favorite@ =~= f.favorite@);
    }
    if f.melody@.len() == 0 {
        assert(g.melody@ =~= f.melody@);
    }
    if f.encoding_source@.len() == 0 {
        assert(g.encoding_source@ =~= f.encoding_source@);
    }
    if f.granularity@.len() == 0 {
        assert(g.granularity@ =~= f.granularity@);
    }
    if f.kind@.len() == 0 {
        assert(g.kind@ =~= f.kind@);
    }
    if f.language@.len() == 0 {
        assert(g.language@ =~= f.language@);
    }
    if f.sort@.len() == 0 {
        assert(g.sort@ =~= f.sort@);
    }
    if f.artist@.len() == 0 {
        assert(g.artist@ =~= f.artist@);
    }
    assert(g.q@ == f.q@);
    assert(g.artist@ == f.artist@);
    assert(suitability_spelling(suitability_reading(g.suitability@)) == suitability_spelling(suitability_reading(f.suitability@)));
    assert(score_spelling(score_reading(g.user_score@)) == score_spelling(score_reading(f.user_score@)));
    assert(initial_spelling(initial_reading(g.initial@)) == initial_spelling(initial_reading(f.initial@)));
    assert(favorited_spelling(favorited_reading(g.favorited@)) == favorited_spelling(favorited_reading(f.favorited@)));
    assert(language_spelling(language_reading(g.language@)) == language_spelling(language_reading(f.language@)));
    assert(copies_spelling(copies_reading(g.copies@)) == copies_spelling(copies_reading(f.copies@)));
    assert(added_spelling(added_reading(g.added@)) == added_spelling(added_reading(f.added@)));
    assert(versions_spelling(versions_reading(g.versions@)) == versions_spelling(versions_reading(f.versions@)));
    assert((g.unpackaged is Some) == (f.unpackaged is Some));
    assert((g.filename is Some) == (f.filename is Some));
    assert(chosen_set(g.tags@, g.add_tag@) == chosen_set(f.tags@, f.add_tag@));
}

} // verus!
