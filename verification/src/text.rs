//! Characters and strings, as the rest of the library reads and writes them.
//!
//! Everything here works on the characters of a string. What Unicode says about a character
//! (whether it is white space, whether it is lower case) is asked of `char` itself, and the
//! library holds the rest: trimming, splitting, digits, and the percent-encoding a query string
//! carries a value in.

use vstd::prelude::*;
use vstd::string::StringSliceAdditionalSpecFns;

verus! {

broadcast use vstd::string::group_string_axioms;

// -- to and from strings -------------------------------------------------------------------

/// The characters of a string slice, one per element.
pub fn chars_of(s: &str) -> (out: Vec<char>)
    ensures
        out@ == s@,
{
    let mut out: Vec<char> = Vec::new();
    for c in it: s.chars()
        invariant
            out@ == it.seq().take(it.index() as int),
    {
        out.push(c);
    }
    out
}

/// A string made of exactly these characters, in this order.
///
/// Calls std's `FromIterator<char>` for `String`, which appends each character in turn; the
/// contract states that, and nothing more.
#[verifier::external_body]
pub fn string_of(chars: &[char]) -> (s: String)
    ensures
        s@ == chars@,
{
    chars.iter().collect()
}

/// The characters of a string slice, as a new string.
pub fn owned(s: &str) -> (out: String)
    ensures
        out@ == s@,
{
    let v = chars_of(s);
    string_of(v.as_slice())
}

// -- what Unicode says about a character ---------------------------------------------------

/// Whether Unicode gives a character the `White_Space` property, which is what
/// `char::is_whitespace` answers: tab to carriage return, space, next line, no-break space, the
/// Ogham space mark, the en quad to the hair space, the line and paragraph separators, the narrow
/// no-break space, the medium mathematical space and the ideographic space.
pub open spec fn white_space(c: char) -> bool {
    let n = c as u32;
    ||| (9 <= n && n <= 13)
    ||| n == 32
    ||| n == 0x85
    ||| n == 0xA0
    ||| n == 0x1680
    ||| (0x2000 <= n && n <= 0x200A)
    ||| n == 0x2028
    ||| n == 0x2029
    ||| n == 0x202F
    ||| n == 0x205F
    ||| n == 0x3000
}

/// Whether Unicode gives a character the `Lowercase` property, which is what
/// `char::is_lowercase` answers.
pub uninterp spec fn lowercase(c: char) -> bool;

/// `char::is_whitespace`: whether the character is one of the [`white_space`] code points.
pub fn is_white_space(c: char) -> (b: bool)
    ensures
        b == white_space(c),
{
    let n = c as u32;
    (9 <= n && n <= 13) || n == 32 || n == 0x85 || n == 0xA0 || n == 0x1680 || (0x2000 <= n && n <= 0x200A)
        || n == 0x2028 || n == 0x2029 || n == 0x202F || n == 0x205F || n == 0x3000
}

/// Calls `char::is_lowercase`.
///
/// Claimed of it: the answer is [`lowercase`] of the character, and within ASCII exactly `a` to
/// `z` are lower case, which is the Unicode `Lowercase` property on the first 128 code points.
#[verifier::external_body]
pub fn is_lower_case(c: char) -> (b: bool)
    ensures
        b == lowercase(c),
        (c as u32) < 128 ==> (b <==> (97 <= c as u32 && c as u32 <= 122)),
{
    c.is_lowercase()
}

/// Whether a character is an ASCII digit, `0` to `9`.
pub open spec fn is_digit(c: char) -> bool {
    48 <= c as u32 && c as u32 <= 57
}

/// `char::is_ascii_digit`.
pub fn ascii_digit(c: char) -> (b: bool)
    ensures
        b == is_digit(c),
{
    let n = c as u32;
    48 <= n && n <= 57
}

/// The ASCII lower-case letter for an ASCII upper-case one, and every other character as it is.
pub open spec fn ascii_lower(c: char) -> char {
    if 65 <= c as u32 && c as u32 <= 90 {
        ((c as u32) + 32) as char
    } else {
        c
    }
}

/// `str::eq_ignore_ascii_case`: the same length, and the same characters once ASCII letters are
/// folded to one case.
pub open spec fn same_ignoring_ascii_case(a: Seq<char>, b: Seq<char>) -> bool {
    a.len() == b.len() && forall|i: int| 0 <= i < a.len() ==> ascii_lower(#[trigger] a[i]) == ascii_lower(b[i])
}

pub fn eq_ignore_ascii_case(a: &[char], b: &[char]) -> (same: bool)
    ensures
        same == same_ignoring_ascii_case(a@, b@),
{
    if a.len() != b.len() {
        return false;
    }
    let mut i: usize = 0;
    while i < a.len()
        invariant
            a@.len() == b@.len(),
            i <= a@.len(),
            forall|j: int| 0 <= j < i ==> ascii_lower(#[trigger] a@[j]) == ascii_lower(b@[j]),
        decreases a@.len() - i,
    {
        let x = a[i] as u32;
        let y = b[i] as u32;
        let fx = if 65 <= x && x <= 90 { x + 32 } else { x };
        let fy = if 65 <= y && y <= 90 { y + 32 } else { y };
        assert(fx == ascii_lower(a@[i as int]) as u32);
        assert(fy == ascii_lower(b@[i as int]) as u32);
        if fx != fy {
            return false;
        }
        i = i + 1;
    }
    true
}

// -- trimming ------------------------------------------------------------------------------

/// The characters with the white space at the front taken off.
pub open spec fn trim_start(s: Seq<char>) -> Seq<char>
    decreases s.len(),
{
    if s.len() > 0 && white_space(s[0]) {
        trim_start(s.drop_first())
    } else {
        s
    }
}

/// The characters with the white space at the back taken off.
pub open spec fn trim_end(s: Seq<char>) -> Seq<char>
    decreases s.len(),
{
    if s.len() > 0 && white_space(s.last()) {
        trim_end(s.drop_last())
    } else {
        s
    }
}

/// `str::trim`: white space taken off both ends.
pub open spec fn trim(s: Seq<char>) -> Seq<char> {
    trim_end(trim_start(s))
}

/// Where the characters left after [`trim_start`] begin.
fn trim_start_at(v: &[char]) -> (at: usize)
    ensures
        at <= v@.len(),
        v@.subrange(at as int, v@.len() as int) == trim_start(v@),
{
    let mut i: usize = 0;
    proof {
        assert(v@.subrange(0, v@.len() as int) =~= v@);
    }
    while i < v.len() && is_white_space(v[i])
        invariant
            i <= v@.len(),
            trim_start(v@.subrange(i as int, v@.len() as int)) == trim_start(v@),
        decreases v@.len() - i,
    {
        let ghost rest = v@.subrange(i as int, v@.len() as int);
        assert(rest.drop_first() =~= v@.subrange(i + 1, v@.len() as int));
        i = i + 1;
    }
    i
}

/// Where the characters left after [`trim_end`] of `v[from..]` end.
fn trim_end_at(v: &[char], from: usize) -> (to: usize)
    requires
        from <= v@.len(),
    ensures
        from <= to <= v@.len(),
        v@.subrange(from as int, to as int) == trim_end(v@.subrange(from as int, v@.len() as int)),
{
    let mut j: usize = v.len();
    while j > from && is_white_space(v[j - 1])
        invariant
            from <= j <= v@.len(),
            trim_end(v@.subrange(from as int, j as int)) == trim_end(
                v@.subrange(from as int, v@.len() as int),
            ),
        decreases j,
    {
        let ghost rest = v@.subrange(from as int, j as int);
        assert(rest.drop_last() =~= v@.subrange(from as int, j - 1));
        j = j - 1;
    }
    j
}

/// The characters of `v` with white space taken off both ends.
pub fn trim_chars(v: &[char]) -> (out: Vec<char>)
    ensures
        out@ == trim(v@),
{
    let from = trim_start_at(v);
    let to = trim_end_at(v, from);
    slice_of(v, from, to)
}

/// `str::trim`, as a new string.
pub fn trimmed(s: &str) -> (out: String)
    ensures
        out@ == trim(s@),
{
    let v = chars_of(s);
    let t = trim_chars(v.as_slice());
    string_of(t.as_slice())
}

/// A copy of `v[from..to]`.
pub fn slice_of(v: &[char], from: usize, to: usize) -> (out: Vec<char>)
    requires
        from <= to <= v@.len(),
    ensures
        out@ == v@.subrange(from as int, to as int),
{
    let mut out: Vec<char> = Vec::new();
    let mut i = from;
    while i < to
        invariant
            from <= i <= to <= v@.len(),
            out@ == v@.subrange(from as int, i as int),
        decreases to - i,
    {
        out.push(v[i]);
        i = i + 1;
    }
    out
}

/// Whether a character is anywhere in the characters.
pub fn contains_char(v: &[char], c: char) -> (found: bool)
    ensures
        found == v@.contains(c),
{
    let mut i: usize = 0;
    while i < v.len()
        invariant
            i <= v@.len(),
            forall|j: int| 0 <= j < i ==> v@[j] != c,
        decreases v@.len() - i,
    {
        if v[i] == c {
            assert(v@[i as int] == c);
            return true;
        }
        i = i + 1;
    }
    false
}

/// Whether two runs of characters are the same.
pub fn same_chars(a: &[char], b: &[char]) -> (same: bool)
    ensures
        same == (a@ == b@),
{
    if a.len() != b.len() {
        return false;
    }
    let mut i: usize = 0;
    while i < a.len()
        invariant
            a@.len() == b@.len(),
            i <= a@.len(),
            forall|j: int| 0 <= j < i ==> a@[j] == b@[j],
        decreases a@.len() - i,
    {
        if a[i] != b[i] {
            return false;
        }
        i = i + 1;
    }
    assert(a@ =~= b@);
    true
}

// -- finding -------------------------------------------------------------------------------

/// `k` is where `c` first occurs in `s`.
pub open spec fn first_at(s: Seq<char>, c: char, k: int) -> bool {
    0 <= k < s.len() && s[k] == c && forall|j: int| 0 <= j < k ==> s[j] != c
}

/// Two first occurrences are one.
pub proof fn lemma_first_at_unique(s: Seq<char>, c: char, k1: int, k2: int)
    requires
        first_at(s, c, k1),
        first_at(s, c, k2),
    ensures
        k1 == k2,
{
}

/// Where `c` first occurs, or `None` when it does not.
pub fn find_char(v: &[char], c: char) -> (at: Option<usize>)
    ensures
        match at {
            Some(k) => first_at(v@, c, k as int),
            None => !v@.contains(c),
        },
{
    let mut i: usize = 0;
    while i < v.len()
        invariant
            i <= v@.len(),
            forall|j: int| 0 <= j < i ==> v@[j] != c,
        decreases v@.len() - i,
    {
        if v[i] == c {
            return Some(i);
        }
        i = i + 1;
    }
    proof {
        assert forall|j: int| 0 <= j < v@.len() implies v@[j] != c by {}
    }
    None
}

/// Whether two string slices hold the same characters.
pub fn str_eq(a: &str, b: &str) -> (same: bool)
    ensures
        same == (a@ == b@),
{
    let x = chars_of(a);
    let y = chars_of(b);
    same_chars(x.as_slice(), y.as_slice())
}

/// Where `c` first occurs in `s`, or -1.
pub open spec fn index_of(s: Seq<char>, c: char) -> int
    decreases s.len(),
{
    if s.len() == 0 {
        -1
    } else if s[0] == c {
        0
    } else {
        let r = index_of(s.drop_first(), c);
        if r < 0 {
            -1
        } else {
            r + 1
        }
    }
}

/// [`index_of`] is the first occurrence, and -1 is none.
pub proof fn lemma_index_of(s: Seq<char>, c: char)
    ensures
        index_of(s, c) >= 0 ==> first_at(s, c, index_of(s, c)),
        index_of(s, c) < 0 ==> !s.contains(c),
        index_of(s, c) >= -1,
    decreases s.len(),
{
    if s.len() > 0 {
        lemma_index_of(s.drop_first(), c);
        if s[0] != c && index_of(s.drop_first(), c) < 0 {
            assert forall|j: int| 0 <= j < s.len() implies s[j] != c by {
                if j > 0 {
                    assert(s[j] == s.drop_first()[j - 1]);
                }
            }
        }
        if s[0] != c && index_of(s.drop_first(), c) >= 0 {
            let k = index_of(s.drop_first(), c);
            assert forall|j: int| 0 <= j < k + 1 implies s[j] != c by {
                if j > 0 {
                    assert(s[j] == s.drop_first()[j - 1]);
                }
            }
        }
    }
}

/// The first occurrence is [`index_of`].
pub proof fn lemma_first_at_is_index_of(s: Seq<char>, c: char, k: int)
    requires
        first_at(s, c, k),
    ensures
        index_of(s, c) == k,
{
    lemma_index_of(s, c);
    if index_of(s, c) >= 0 {
        lemma_first_at_unique(s, c, k, index_of(s, c));
    } else {
        assert(s.contains(c));
    }
}

/// `str::split` by one character: the pieces between the occurrences, in order, an empty piece
/// where two are adjacent or one is at an end.
pub open spec fn split_on(s: Seq<char>, c: char) -> Seq<Seq<char>>
    decreases s.len(),
{
    let k = index_of(s, c);
    if k < 0 || k >= s.len() {
        seq![s]
    } else {
        seq![s.take(k)] + split_on(s.skip(k + 1), c)
    }
}

/// Where `c` first occurs in `v[from..]`, counted from the start of `v`.
pub fn find_char_from(v: &[char], c: char, from: usize) -> (at: Option<usize>)
    requires
        from <= v@.len(),
    ensures
        match at {
            Some(k) => from <= k < v@.len() && v@[k as int] == c && index_of(v@.skip(from as int), c) == k - from,
            None => index_of(v@.skip(from as int), c) < 0,
        },
{
    let mut i: usize = from;
    while i < v.len()
        invariant
            from <= i <= v@.len(),
            forall|j: int| from <= j < i ==> v@[j] != c,
        decreases v@.len() - i,
    {
        if v[i] == c {
            proof {
                let rest = v@.skip(from as int);
                assert forall|j: int| 0 <= j < i - from implies rest[j] != c by {
                    assert(rest[j] == v@[from + j]);
                }
                assert(first_at(rest, c, i - from));
                lemma_first_at_is_index_of(rest, c, i - from);
            }
            return Some(i);
        }
        i = i + 1;
    }
    proof {
        let rest = v@.skip(from as int);
        lemma_index_of(rest, c);
        if index_of(rest, c) >= 0 {
            let k = index_of(rest, c);
            assert(rest[k] == v@[from + k]);
        }
    }
    None
}

/// The pieces of `v` between the occurrences of `c`, as `str::split` gives them.
pub fn split_chars(v: &[char], c: char) -> (pieces: Vec<Vec<char>>)
    ensures
        pieces@.map_values(|p: Vec<char>| p@) == split_on(v@, c),
{
    let mut pieces: Vec<Vec<char>> = Vec::new();
    let mut from: usize = 0;
    proof {
        assert(v@.skip(0) =~= v@);
    }
    loop
        invariant
            from <= v@.len(),
            pieces@.map_values(|p: Vec<char>| p@) + split_on(v@.skip(from as int), c) == split_on(
                v@,
                c,
            ),
        decreases v@.len() - from,
    {
        let ghost rest = v@.skip(from as int);
        let ghost before = pieces@.map_values(|p: Vec<char>| p@);
        match find_char_from(v, c, from) {
            None => {
                let last = slice_of(v, from, v.len());
                pieces.push(last);
                proof {
                    assert(last@ =~= rest);
                    assert(split_on(rest, c) == seq![rest]);
                    assert(pieces@.map_values(|p: Vec<char>| p@) =~= before + seq![rest]);
                }
                return pieces;
            },
            Some(k) => {
                assert(k < v.len());
                let piece = slice_of(v, from, k);
                pieces.push(piece);
                proof {
                    let kk = k - from;
                    assert(index_of(rest, c) == kk);
                    lemma_index_of(rest, c);
                    assert(kk < rest.len());
                    assert(piece@ =~= rest.take(kk));
                    assert(rest.skip(kk + 1) =~= v@.skip(k + 1));
                    assert(split_on(rest, c) == seq![rest.take(kk)] + split_on(rest.skip(kk + 1), c));
                    assert(pieces@.map_values(|p: Vec<char>| p@) =~= before + seq![piece@]);
                    assert(before + split_on(rest, c) =~= (before + seq![piece@]) + split_on(
                        v@.skip(k + 1),
                        c,
                    ));
                }
                from = k + 1;
            },
        }
    }
}

/// Appends characters to a list of them.
pub fn push_all(out: &mut Vec<char>, more: &[char])
    ensures
        final(out)@ == old(out)@ + more@,
{
    let mut i: usize = 0;
    while i < more.len()
        invariant
            i <= more@.len(),
            out@ == old(out)@ + more@.take(i as int),
        decreases more@.len() - i,
    {
        out.push(more[i]);
        proof {
            assert(more@.take(i + 1) =~= more@.take(i as int).push(more@[i as int]));
        }
        i = i + 1;
    }
    proof {
        assert(more@.take(more@.len() as int) =~= more@);
    }
}

/// Appends a string's characters to a list of them.
pub fn push_str(out: &mut Vec<char>, more: &str)
    ensures
        final(out)@ == old(out)@ + more@,
{
    let v = chars_of(more);
    push_all(out, v.as_slice());
}

/// Where `c` last occurs in `s`, or -1.
pub open spec fn last_index_of(s: Seq<char>, c: char) -> int
    decreases s.len(),
{
    if s.len() == 0 {
        -1
    } else if s.last() == c {
        s.len() - 1
    } else {
        last_index_of(s.drop_last(), c)
    }
}

pub proof fn lemma_last_index_of_bounds(s: Seq<char>, c: char)
    ensures
        -1 <= last_index_of(s, c) < s.len(),
        last_index_of(s, c) >= 0 ==> s[last_index_of(s, c)] == c,
    decreases s.len(),
{
    if s.len() > 0 && s.last() != c {
        lemma_last_index_of_bounds(s.drop_last(), c);
    }
}

/// Where `c` last occurs in `v[..end]`.
pub fn find_last(v: &[char], c: char, end: usize) -> (at: Option<usize>)
    requires
        end <= v@.len(),
    ensures
        match at {
            Some(k) => k < end && last_index_of(v@.take(end as int), c) == k,
            None => last_index_of(v@.take(end as int), c) == -1,
        },
{
    let mut j = end;
    while j > 0
        invariant
            j <= end <= v@.len(),
            last_index_of(v@.take(j as int), c) == last_index_of(v@.take(end as int), c),
        decreases j,
    {
        if v[j - 1] == c {
            return Some(j - 1);
        }
        proof {
            assert(v@.take(j as int).drop_last() =~= v@.take(j - 1));
        }
        j = j - 1;
    }
    None
}

/// `str::replace` with a non-empty pattern: every occurrence, found left to right without
/// overlapping, replaced.
pub open spec fn replace_all(s: Seq<char>, pat: Seq<char>, rep: Seq<char>) -> Seq<char>
    decreases s.len(),
{
    if pat.len() == 0 || s.len() < pat.len() {
        s
    } else if s.take(pat.len() as int) == pat {
        rep + replace_all(s.skip(pat.len() as int), pat, rep)
    } else {
        seq![s[0]] + replace_all(s.drop_first(), pat, rep)
    }
}

/// Whether `pat` occurs in `v` at `at`.
fn matches_at(v: &[char], pat: &[char], at: usize) -> (m: bool)
    requires
        at <= v@.len(),
    ensures
        m == (v@.len() - at >= pat@.len() && v@.skip(at as int).take(pat@.len() as int) == pat@),
{
    if v.len() - at < pat.len() {
        return false;
    }
    let n = v.len();
    let mut i: usize = 0;
    while i < pat.len()
        invariant
            n == v@.len(),
            v@.len() - at >= pat@.len(),
            i <= pat@.len(),
            forall|j: int| 0 <= j < i ==> v@[at + j] == pat@[j],
        decreases pat@.len() - i,
    {
        if v[at + i] != pat[i] {
            proof {
                assert(v@.skip(at as int).take(pat@.len() as int)[i as int] == v@[at + i]);
            }
            return false;
        }
        i = i + 1;
    }
    assert(v@.skip(at as int).take(pat@.len() as int) =~= pat@);
    true
}

/// Every occurrence of a non-empty pattern replaced, as `str::replace` does.
pub fn replace_chars(v: &[char], pat: &[char], rep: &[char]) -> (out: Vec<char>)
    requires
        pat@.len() > 0,
    ensures
        out@ == replace_all(v@, pat@, rep@),
{
    let mut out: Vec<char> = Vec::new();
    let mut i: usize = 0;
    proof {
        assert(v@.skip(0) =~= v@);
    }
    while i < v.len()
        invariant
            i <= v@.len(),
            pat@.len() > 0,
            out@ + replace_all(v@.skip(i as int), pat@, rep@) == replace_all(v@, pat@, rep@),
        decreases v@.len() - i,
    {
        let ghost rest = v@.skip(i as int);
        if matches_at(v, pat, i) {
            push_all(&mut out, rep);
            proof {
                assert(rest.take(pat@.len() as int) == pat@);
                assert(rest.skip(pat@.len() as int) =~= v@.skip(i + pat@.len()));
            }
            i = i + pat.len();
        } else {
            out.push(v[i]);
            proof {
                if rest.len() >= pat@.len() {
                    assert(rest.take(pat@.len() as int) != pat@);
                    assert(rest.drop_first() =~= v@.skip(i + 1));
                } else {
                    assert(replace_all(rest, pat@, rep@) == rest);
                    assert(rest =~= seq![rest[0]] + v@.skip(i + 1));
                    assert(replace_all(v@.skip(i + 1), pat@, rep@) == v@.skip(i + 1));
                }
            }
            i = i + 1;
        }
    }
    proof {
        assert(v@.skip(i as int) =~= Seq::<char>::empty());
        assert(out@ + Seq::<char>::empty() =~= out@);
    }
    out
}

// -- ordering ------------------------------------------------------------------------------

/// `a` sorts before `b` as `String`'s `Ord` sorts: character by character by code point, and a
/// proper prefix first. (Comparing UTF-8 bytes, which is what `String` does, orders code points
/// the same way.)
pub open spec fn chars_lt(a: Seq<char>, b: Seq<char>) -> bool
    decreases a.len(),
{
    if a.len() == 0 {
        b.len() > 0
    } else if b.len() == 0 {
        false
    } else if a[0] != b[0] {
        (a[0] as u32) < (b[0] as u32)
    } else {
        chars_lt(a.drop_first(), b.drop_first())
    }
}

/// Two characters with one code point are one character.
pub proof fn lemma_char_code_injective(x: char, y: char)
    ensures
        (x as u32 == y as u32) ==> x == y,
{
}

/// Nothing sorts before itself.
pub proof fn lemma_chars_lt_irreflexive(a: Seq<char>)
    ensures
        !chars_lt(a, a),
    decreases a.len(),
{
    if a.len() > 0 {
        lemma_chars_lt_irreflexive(a.drop_first());
    }
}

/// Two strings are equal or one sorts before the other, and never both ways.
pub proof fn lemma_chars_lt_total(a: Seq<char>, b: Seq<char>)
    ensures
        a == b || chars_lt(a, b) || chars_lt(b, a),
        !(chars_lt(a, b) && chars_lt(b, a)),
    decreases a.len(),
{
    if a.len() > 0 && b.len() > 0 {
        lemma_chars_lt_total(a.drop_first(), b.drop_first());
        lemma_char_code_injective(a[0], b[0]);
        if a[0] == b[0] && a.drop_first() == b.drop_first() {
            assert(a =~= seq![a[0]] + a.drop_first());
            assert(b =~= seq![b[0]] + b.drop_first());
        }
    } else if a.len() == 0 && b.len() == 0 {
        assert(a =~= b);
    }
}

/// Sorting before is transitive.
pub proof fn lemma_chars_lt_transitive(a: Seq<char>, b: Seq<char>, c: Seq<char>)
    requires
        chars_lt(a, b),
        chars_lt(b, c),
    ensures
        chars_lt(a, c),
    decreases a.len(),
{
    if a.len() > 0 && b.len() > 0 && c.len() > 0 && a[0] == b[0] && b[0] == c[0] {
        lemma_chars_lt_transitive(a.drop_first(), b.drop_first(), c.drop_first());
    }
}

/// Whether `a` sorts before `b`, by [`chars_lt`].
pub fn chars_less(a: &[char], b: &[char]) -> (less: bool)
    ensures
        less == chars_lt(a@, b@),
{
    let mut i: usize = 0;
    proof {
        assert(a@.skip(0) =~= a@);
        assert(b@.skip(0) =~= b@);
    }
    while i < a.len() && i < b.len() && a[i] == b[i]
        invariant
            i <= a@.len(),
            i <= b@.len(),
            chars_lt(a@.skip(i as int), b@.skip(i as int)) == chars_lt(a@, b@),
        decreases a@.len() - i,
    {
        proof {
            assert(a@.skip(i as int).drop_first() =~= a@.skip(i + 1));
            assert(b@.skip(i as int).drop_first() =~= b@.skip(i + 1));
        }
        i = i + 1;
    }
    proof {
        assert(a@.skip(i as int).len() == a@.len() - i);
        assert(b@.skip(i as int).len() == b@.len() - i);
    }
    if i == a.len() {
        i < b.len()
    } else if i == b.len() {
        false
    } else {
        proof {
            assert(a@.skip(i as int)[0] == a@[i as int]);
            assert(b@.skip(i as int)[0] == b@[i as int]);
        }
        (a[i] as u32) < (b[i] as u32)
    }
}

// -- numbers -------------------------------------------------------------------------------

/// The character for one decimal digit.
pub open spec fn digit_char(d: nat) -> char {
    (48 + d) as char
}

/// A number written in decimal, as `Display` writes an unsigned integer: no sign and no leading
/// zeros.
pub open spec fn decimal(n: nat) -> Seq<char>
    decreases n,
{
    if n < 10 {
        seq![digit_char(n)]
    } else {
        decimal(n / 10).push(digit_char(n % 10))
    }
}

/// The decimal digits of a number.
pub fn decimal_of(n: u64) -> (out: Vec<char>)
    ensures
        out@ == decimal(n as nat),
    decreases n,
{
    let d = (n % 10) as u8;
    let c = (48u8 + d) as char;
    if n < 10 {
        let mut out: Vec<char> = Vec::new();
        out.push(c);
        out
    } else {
        let mut out = decimal_of(n / 10);
        out.push(c);
        out
    }
}

// -- percent-encoding ----------------------------------------------------------------------

/// The bytes the `application/x-www-form-urlencoded` byte serializer passes through unchanged.
pub open spec fn passes_unchanged(b: u8) -> bool {
    b == 42 || b == 45 || b == 46 || (48 <= b && b <= 57) || (65 <= b && b <= 90) || b == 95 || (
    97 <= b && b <= 122)
}

/// One hexadecimal digit, upper case.
pub open spec fn hex_digit(d: nat) -> char {
    if d < 10 {
        (48 + d) as char
    } else {
        (55 + d) as char
    }
}

/// What the byte serializer writes for one byte.
pub open spec fn encoded_byte(b: u8) -> Seq<char> {
    if passes_unchanged(b) {
        seq![b as char]
    } else if b == 32 {
        seq!['+']
    } else {
        seq!['%', hex_digit(b as nat / 16), hex_digit(b as nat % 16)]
    }
}

/// What the byte serializer writes for a run of bytes.
pub open spec fn encoded_bytes(bytes: Seq<u8>) -> Seq<char>
    decreases bytes.len(),
{
    if bytes.len() == 0 {
        seq![]
    } else {
        encoded_bytes(bytes.drop_last()) + encoded_byte(bytes.last())
    }
}

fn hex_char(d: u8) -> (c: char)
    requires
        d < 16,
    ensures
        c == hex_digit(d as nat),
{
    if d < 10 {
        (48u8 + d) as char
    } else {
        (55u8 + d) as char
    }
}

/// Percent-encodes a value for a URL, as a form submits it: the value's UTF-8 bytes, letters,
/// digits and `*-._` as they are, a space as `+`, and every other byte as `%` and two upper-case
/// hexadecimal digits.
pub fn encode(value: &str) -> (out: String)
    ensures
        out@ == encoded_bytes(value.spec_bytes()),
{
    let bytes = value.as_bytes();
    let mut out: Vec<char> = Vec::new();
    let mut i: usize = 0;
    while i < bytes.len()
        invariant
            i <= bytes@.len(),
            bytes@ == value.spec_bytes(),
            out@ == encoded_bytes(bytes@.subrange(0, i as int)),
        decreases bytes@.len() - i,
    {
        let b = bytes[i];
        let ghost before = out@;
        let unchanged = b == 42 || b == 45 || b == 46 || (48 <= b && b <= 57) || (65 <= b && b
            <= 90) || b == 95 || (97 <= b && b <= 122);
        if unchanged {
            out.push(b as char);
        } else if b == 32 {
            out.push('+');
        } else {
            out.push('%');
            out.push(hex_char(b / 16));
            out.push(hex_char(b % 16));
        }
        proof {
            let taken = bytes@.subrange(0, i + 1);
            assert(taken.drop_last() =~= bytes@.subrange(0, i as int));
            assert(taken.last() == b);
            assert(out@ =~= before + encoded_byte(b));
        }
        i = i + 1;
    }
    proof {
        assert(bytes@.subrange(0, bytes@.len() as int) =~= bytes@);
    }
    string_of(out.as_slice())
}

} // verus!
