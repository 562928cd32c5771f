//! Reading a form body: the key and value pairs it carries, and the first value under a key.
//!
//! A body is decoded by `serde_urlencoded`, which splits it on `&`, each pair at its first `=`, and
//! decodes `+` and percent escapes. What is done with the pairs afterwards is this module's, and is
//! stated exactly: one key asked for means its first value, because the controls a page sends
//! first are the ones that speak for it.

use vstd::prelude::*;
use crate::text::{str_eq, encoded_bytes};

verus! {

/// The key and value pairs of a list of them, as characters.
pub open spec fn pair_views(pairs: Seq<(String, String)>) -> Seq<(Seq<char>, Seq<char>)> {
    pairs.map_values(|p: (String, String)| (p.0@, p.1@))
}

/// What `serde_urlencoded::from_str` reads out of a body as a list of key and value pairs, or `None`
/// where it refuses the body.
pub uninterp spec fn form_pairs(body: Seq<char>) -> Option<Seq<(Seq<char>, Seq<char>)>>;

/// A key a form carries as it is: letters, digits and `_`, and at least one of them.
pub open spec fn plain_key(k: Seq<char>) -> bool {
    k.len() > 0 && forall|i: int| 0 <= i < k.len() ==> #[trigger] plain_key_char(k[i])
}

/// A character a key may hold without being escaped.
pub open spec fn plain_key_char(c: char) -> bool {
    ('a' <= c && c <= 'z') || ('A' <= c && c <= 'Z') || ('0' <= c && c <= '9') || c == '_'
}

/// One pair as a link writes it: the key, `=`, and the value's UTF-8 bytes form-encoded.
pub open spec fn written_pair(p: (Seq<char>, Seq<char>)) -> Seq<char> {
    p.0 + "="@ + encoded_bytes(vstd::utf8::encode_utf8(p.1))
}

/// Each of a list of pairs as a link writes it.
pub open spec fn written_pairs(ps: Seq<(Seq<char>, Seq<char>)>) -> Seq<Seq<char>> {
    ps.map_values(|p: (Seq<char>, Seq<char>)| written_pair(p))
}

/// Pairs as a link writes them, joined by `&`.
pub open spec fn form_text(ps: Seq<(Seq<char>, Seq<char>)>) -> Seq<char> {
    crate::browse::joined(written_pairs(ps), "&"@)
}

/// Whether a decoding of `body` gives back the pairs of any link the body is: pairs with plain
/// keys, written as [`form_text`] writes them.
pub open spec fn reads_back_links(body: Seq<char>, decoded: Result<Vec<(String, String)>, String>) -> bool {
    forall|ps: Seq<(Seq<char>, Seq<char>)>|
        #![trigger form_text(ps)]
        form_text(ps) == body && (forall|i: int| 0 <= i < ps.len() ==> plain_key(#[trigger] ps[i].0))
            ==> (decoded matches Ok(p) && pair_views(p@) == ps)
}

/// Calls `serde_urlencoded::from_str::<Vec<(String, String)>>`, which hands the body to
/// `form_urlencoded::parse` and collects the decoded pairs in the order they came.
///
/// Claimed of it: the pairs it answers are [`form_pairs`] of the body, and an error stands for
/// `None` there. And it reads back what a link writes: pairs with plain keys, each written as
/// [`written_pair`] and joined by `&`, come back as those pairs, because the parser splits on `&`
/// and then at the first `=`, turns `+` into a space and each `%` and two hexadecimal digits into
/// the byte they name, and reads the bytes as UTF-8, and the encoding writes neither `&` nor `=`
/// nor a lone `%`. The error's wording, and what it makes of other bodies byte by byte, are not
/// stated.
#[verifier::external_body]
pub(crate) fn decoded_pairs(body: &str) -> (pairs: Result<Vec<(String, String)>, String>)
    ensures
        match pairs {
            Ok(p) => form_pairs(body@) == Some(pair_views(p@)),
            Err(_) => form_pairs(body@) is None,
        },
        reads_back_links(body@, pairs),
{
    match serde_urlencoded::from_str::<Vec<(String, String)>>(body) {
        Ok(pairs) => Ok(pairs),
        Err(error) => Err(error.to_string()),
    }
}

/// Where the first pair under `key` is, or `-1` when there is none.
pub open spec fn first_under(pairs: Seq<(Seq<char>, Seq<char>)>, key: Seq<char>) -> int
    decreases pairs.len(),
{
    if pairs.len() == 0 {
        -1
    } else if pairs[0].0 == key {
        0
    } else {
        let rest = first_under(pairs.drop_first(), key);
        if rest < 0 {
            -1
        } else {
            rest + 1
        }
    }
}

/// The first value under `key`, if any pair carries it.
pub open spec fn value_under(pairs: Seq<(Seq<char>, Seq<char>)>, key: Seq<char>) -> Option<Seq<char>> {
    let k = first_under(pairs, key);
    if k < 0 {
        None
    } else {
        Some(pairs[k].1)
    }
}

/// Every value under `key`, in the order they came.
pub open spec fn values_under(pairs: Seq<(Seq<char>, Seq<char>)>, key: Seq<char>) -> Seq<Seq<char>>
    decreases pairs.len(),
{
    if pairs.len() == 0 {
        seq![]
    } else {
        let rest = values_under(pairs.drop_last(), key);
        if pairs.last().0 == key {
            rest.push(pairs.last().1)
        } else {
            rest
        }
    }
}

/// `first_under` is the first place the key is found.
pub proof fn lemma_first_under(pairs: Seq<(Seq<char>, Seq<char>)>, key: Seq<char>)
    ensures
        -1 <= first_under(pairs, key) < pairs.len(),
        first_under(pairs, key) >= 0 ==> pairs[first_under(pairs, key)].0 == key,
        forall|j: int|
            0 <= j < pairs.len() && (first_under(pairs, key) < 0 || j < first_under(pairs, key))
                ==> #[trigger] pairs[j].0 != key,
    decreases pairs.len(),
{
    if pairs.len() > 0 && pairs[0].0 != key {
        lemma_first_under(pairs.drop_first(), key);
        assert forall|j: int|
            0 <= j < pairs.len() && (first_under(pairs, key) < 0 || j < first_under(pairs, key))
                implies #[trigger] pairs[j].0 != key by {
            if j > 0 {
                assert(pairs[j] == pairs.drop_first()[j - 1]);
            }
        }
    }
}

/// Where `key` first occurs among the pairs, found by walking them.
pub fn find_key(pairs: &Vec<(String, String)>, key: &str) -> (at: Option<usize>)
    ensures
        match at {
            Some(k) => k as int == first_under(pair_views(pairs@), key@) && k < pairs@.len(),
            None => first_under(pair_views(pairs@), key@) < 0,
        },
{
    let ghost ps = pair_views(pairs@);
    proof {
        lemma_first_under(ps, key@);
    }
    let mut i: usize = 0;
    while i < pairs.len()
        invariant
            i <= pairs@.len(),
            ps == pair_views(pairs@),
            -1 <= first_under(ps, key@) < ps.len(),
            first_under(ps, key@) >= 0 ==> ps[first_under(ps, key@)].0 == key@,
            forall|j: int|
                0 <= j < ps.len() && (first_under(ps, key@) < 0 || j < first_under(ps, key@))
                    ==> #[trigger] ps[j].0 != key@,
            forall|j: int| 0 <= j < i ==> #[trigger] ps[j].0 != key@,
        decreases pairs@.len() - i,
    {
        if str_eq(pairs[i].0.as_str(), key) {
            proof {
                assert(ps[i as int].0 == key@);
                let f = first_under(ps, key@);
                if f < 0 || (i as int) < f {
                    assert(ps[i as int].0 != key@);
                }
                if f >= 0 && f < i {
                    assert(ps[f].0 != key@);
                }
            }
            return Some(i);
        }
        i = i + 1;
    }
    proof {
        let f = first_under(ps, key@);
        if f >= 0 {
            assert(ps[f].0 != key@);
        }
    }
    None
}

/// The key and value pairs of a form body, in the order they came.
#[derive(Debug)]
pub struct Fields {
    pairs: Vec<(String, String)>,
}

impl View for Fields {
    type V = Seq<(Seq<char>, Seq<char>)>;

    closed spec fn view(&self) -> Seq<(Seq<char>, Seq<char>)> {
        pair_views(self.pairs@)
    }
}

impl Fields {
    /// The fields a list of decoded pairs makes.
    pub fn from_pairs(pairs: Vec<(String, String)>) -> (f: Fields)
        ensures
            f@ == pair_views(pairs@),
    {
        Fields { pairs }
    }

    /// The fields of a form body; a body the decoder refuses has none.
    pub fn parse(body: &str) -> (f: Fields)
        ensures
            f@ == match form_pairs(body@) {
                Some(p) => p,
                None => Seq::<(Seq<char>, Seq<char>)>::empty(),
            },
    {
        match decoded_pairs(body) {
            Ok(pairs) => Fields::from_pairs(pairs),
            Err(_) => Fields::from_pairs(Vec::new()),
        }
    }

    /// The first value under `key`, if the body carries one.
    pub fn one(&self, key: &str) -> (v: Option<&str>)
        ensures
            match v {
                Some(s) => value_under(self@, key@) == Some(s@),
                None => value_under(self@, key@) is None,
            },
    {
        match find_key(&self.pairs, key) {
            Some(k) => {
                let s = self.pairs[k].1.as_str();
                proof {
                    assert(pair_views(self.pairs@)[k as int] == (self.pairs@[k as int].0@, self.pairs@[k as int].1@));
                }
                Some(s)
            },
            None => None,
        }
    }

    /// The first value under `key`, or nothing at all when the body carries none.
    pub fn text(&self, key: &str) -> (v: &str)
        ensures
            v@ == match value_under(self@, key@) {
                Some(s) => s,
                None => Seq::<char>::empty(),
            },
    {
        match self.one(key) {
            Some(s) => s,
            None => {
                let empty: &str = "";
                proof {
                    reveal_strlit("");
                }
                empty
            },
        }
    }

    /// Whether the body carries `key` at all, whatever its value.
    pub fn has(&self, key: &str) -> (b: bool)
        ensures
            b == (value_under(self@, key@) is Some),
    {
        self.one(key).is_some()
    }

    /// Every value under `key`, in the order they came.
    pub fn all(&self, key: &str) -> (vs: Vec<String>)
        ensures
            vs@.map_values(|s: String| s@) == values_under(self@, key@),
    {
        let ghost ps = pair_views(self.pairs@);
        let mut out: Vec<String> = Vec::new();
        let mut i: usize = 0;
        while i < self.pairs.len()
            invariant
                i <= self.pairs@.len(),
                ps == pair_views(self.pairs@),
                out@.map_values(|s: String| s@) == values_under(ps.take(i as int), key@),
            decreases self.pairs@.len() - i,
        {
            proof {
                assert(ps.take(i + 1).drop_last() =~= ps.take(i as int));
                assert(ps.take(i + 1).last() == ps[i as int]);
            }
            if str_eq(self.pairs[i].0.as_str(), key) {
                let ghost before = out@.map_values(|s: String| s@);
                out.push(self.pairs[i].1.clone());
                proof {
                    assert(out@.map_values(|s: String| s@) =~= before.push(ps[i as int].1));
                }
            }
            i = i + 1;
        }
        proof {
            assert(ps.take(self.pairs@.len() as int) =~= ps);
        }
        out
    }
}

// -- numbers in a field --------------------------------------------------------------------

/// Why a field that should hold a number does not, worded as `u32::from_str` words it.
#[derive(Debug, Clone, Copy, PartialEq, Eq, Structural)]
pub enum NumberError {
    /// Nothing to read.
    Empty,
    /// A character that is not a decimal digit, or a sign with nothing after it.
    InvalidDigit,
    /// More than a `u32` holds.
    TooLarge,
}

impl NumberError {
    /// The sentence `ParseIntError` displays for this.
    pub fn message(self) -> (s: &'static str)
        ensures
            s@ == number_error_text(self),
    {
        match self {
            NumberError::Empty => {
                proof {
                    reveal_strlit("cannot parse integer from empty string");
                }
                "cannot parse integer from empty string"
            },
            NumberError::InvalidDigit => {
                proof {
                    reveal_strlit("invalid digit found in string");
                }
                "invalid digit found in string"
            },
            NumberError::TooLarge => {
                proof {
                    reveal_strlit("number too large to fit in target type");
                }
                "number too large to fit in target type"
            },
        }
    }
}

/// What [`NumberError::message`] says.
pub open spec fn number_error_text(e: NumberError) -> Seq<char> {
    match e {
        NumberError::Empty => "cannot parse integer from empty string"@,
        NumberError::InvalidDigit => "invalid digit found in string"@,
        NumberError::TooLarge => "number too large to fit in target type"@,
    }
}

/// The value of a decimal digit.
pub open spec fn digit_value(c: char) -> nat {
    (c as int - 48) as nat
}

/// Reading decimal digits left to right from `value`: the number so far, or the first thing that
/// went wrong. A character that is not a digit is reported before an overflow at the same place.
pub open spec fn digits_value(ds: Seq<char>, value: nat) -> Result<nat, NumberError>
    decreases ds.len(),
{
    if ds.len() == 0 {
        Ok(value)
    } else if !('0' <= ds[0] && ds[0] <= '9') {
        Err(NumberError::InvalidDigit)
    } else {
        let next = value * 10 + digit_value(ds[0]);
        if next > u32::MAX {
            Err(NumberError::TooLarge)
        } else {
            digits_value(ds.drop_first(), next)
        }
    }
}

/// What `u32::from_str` makes of a text: an optional `+`, then one or more decimal digits whose
/// value fits.
pub open spec fn u32_value(s: Seq<char>) -> Result<nat, NumberError> {
    if s.len() == 0 {
        Err(NumberError::Empty)
    } else if s.len() == 1 && (s[0] == '+' || s[0] == '-') {
        Err(NumberError::InvalidDigit)
    } else if s[0] == '+' {
        digits_value(s.drop_first(), 0)
    } else {
        digits_value(s, 0)
    }
}

/// Reads a decimal number the way `u32::from_str` does.
pub fn parse_u32(s: &str) -> (r: Result<u32, NumberError>)
    ensures
        match r {
            Ok(n) => u32_value(s@) == Ok::<nat, NumberError>(n as nat),
            Err(e) => u32_value(s@) == Err::<nat, NumberError>(e),
        },
{
    let v = crate::text::chars_of(s);
    if v.len() == 0 {
        return Err(NumberError::Empty);
    }
    if v.len() == 1 && (v[0] == '+' || v[0] == '-') {
        return Err(NumberError::InvalidDigit);
    }
    let start: usize = if v[0] == '+' {
        1
    } else {
        0
    };
    let ghost ds = v@.skip(start as int);
    proof {
        if start == 1 {
            assert(ds =~= v@.drop_first());
        } else {
            assert(ds =~= v@);
        }
        assert(u32_value(s@) == digits_value(ds, 0));
    }
    let mut value: u32 = 0;
    let mut i: usize = start;
    while i < v.len()
        invariant
            start <= i <= v@.len(),
            ds == v@.skip(start as int),
            u32_value(s@) == digits_value(ds, 0),
            digits_value(ds, 0) == digits_value(v@.skip(i as int), value as nat),
        decreases v@.len() - i,
    {
        let c = v[i];
        let ghost rest = v@.skip(i as int);
        proof {
            assert(rest[0] == c);
            assert(rest.drop_first() =~= v@.skip(i + 1));
        }
        if !('0' <= c && c <= '9') {
            return Err(NumberError::InvalidDigit);
        }
        let d: u32 = (c as u32) - 48;
        if value > 429496729 || (value == 429496729 && d > 5) {
            proof {
                assert(value as nat * 10 + digit_value(c) > u32::MAX);
            }
            return Err(NumberError::TooLarge);
        }
        value = value * 10 + d;
        i = i + 1;
    }
    proof {
        assert(v@.skip(i as int).len() == 0);
    }
    Ok(value)
}


/// Whether every character is a decimal digit.
pub open spec fn all_decimal(ds: Seq<char>) -> bool {
    forall|i: int| 0 <= i < ds.len() ==> '0' <= #[trigger] ds[i] && ds[i] <= '9'
}

/// The value of a run of decimal digits.
pub open spec fn decimal_number(ds: Seq<char>) -> nat
    decreases ds.len(),
{
    if ds.len() == 0 {
        0
    } else {
        decimal_number(ds.drop_last()) * 10 + digit_value(ds.last())
    }
}

/// What `i64::from_str` makes of a text, when it reads: an optional sign, then one or more decimal
/// digits whose signed value fits.
pub open spec fn i64_value(s: Seq<char>) -> Option<int> {
    let negative = s.len() > 0 && s[0] == '-';
    let ds = if s.len() > 0 && (s[0] == '+' || s[0] == '-') {
        s.drop_first()
    } else {
        s
    };
    let v: int = if negative {
        -(decimal_number(ds) as int)
    } else {
        decimal_number(ds) as int
    };
    if ds.len() > 0 && all_decimal(ds) && i64::MIN <= v <= i64::MAX {
        Some(v)
    } else {
        None
    }
}

proof fn lemma_decimal_number_grows(ds: Seq<char>, n: int)
    requires
        0 <= n <= ds.len(),
        all_decimal(ds),
    ensures
        decimal_number(ds.take(n)) <= decimal_number(ds),
    decreases ds.len() - n,
{
    if n < ds.len() {
        lemma_decimal_number_grows(ds, n + 1);
        assert(ds.take(n + 1).drop_last() =~= ds.take(n));
    } else {
        assert(ds.take(n) =~= ds);
    }
}

/// Reads a signed decimal number the way `i64::from_str` does, keeping only whether it read.
pub fn parse_i64(s: &str) -> (r: Option<i64>)
    ensures
        match r {
            Some(n) => i64_value(s@) == Some(n as int),
            None => i64_value(s@) is None,
        },
{
    let v = crate::text::chars_of(s);
    let negative = v.len() > 0 && v[0] == '-';
    let start: usize = if v.len() > 0 && (v[0] == '+' || v[0] == '-') {
        1
    } else {
        0
    };
    let ghost ds = v@.skip(start as int);
    proof {
        if start == 1 {
            assert(ds =~= v@.drop_first());
        } else {
            assert(ds =~= v@);
        }
    }
    if start == v.len() {
        return None;
    }
    // The magnitude, which may reach one past `i64::MAX` for the most negative number.
    let mut value: u64 = 0;
    let mut i: usize = start;
    while i < v.len()
        invariant
            start <= i <= v@.len(),
            ds == v@.skip(start as int),
            value as nat == decimal_number(ds.take(i - start)),
            all_decimal(ds.take(i - start)),
            value <= 9223372036854775808u64,
            v@ == s@,
            start == (if v@.len() > 0 && (v@[0] == '+' || v@[0] == '-') { 1int } else { 0int }),
            negative == (v@.len() > 0 && v@[0] == '-'),
            ds.len() > 0,
            ds == (if v@.len() > 0 && (v@[0] == '+' || v@[0] == '-') { v@.drop_first() } else { v@ }),
        decreases v@.len() - i,
    {
        let c = v[i];
        proof {
            assert(ds[i - start] == c);
            assert(ds.take(i - start + 1).drop_last() =~= ds.take(i - start));
            assert(ds.take(i - start + 1).last() == c);
        }
        if !('0' <= c && c <= '9') {
            return None;
        }
        let d = ((c as u32) - 48) as u64;
        proof {
            assert(d as nat == digit_value(c));
            assert(decimal_number(ds.take(i - start + 1)) == decimal_number(ds.take(i - start)) * 10
                + digit_value(c));
        }
        if value > 922337203685477580u64 || (value == 922337203685477580u64 && d > 8) {
            proof {
                assert(decimal_number(ds.take(i - start + 1)) > 9223372036854775808);
                if all_decimal(ds) {
                    lemma_decimal_number_grows(ds, i - start + 1);
                }
            }
            return None;
        }
        value = value * 10 + d;
        proof {
            assert(all_decimal(ds.take(i - start + 1))) by {
                assert forall|k: int| 0 <= k < ds.take(i - start + 1).len() implies '0'
                    <= #[trigger] ds.take(i - start + 1)[k] && ds.take(i - start + 1)[k] <= '9' by {
                    if k < i - start {
                        assert(ds.take(i - start + 1)[k] == ds.take(i - start)[k]);
                    }
                }
            }
        }
        i = i + 1;
    }
    proof {
        assert(ds.take(i - start) =~= ds);
    }
    if negative {
        if value == 9223372036854775808u64 {
            Some(i64::MIN)
        } else {
            Some(-(value as i64))
        }
    } else {
        if value > 9223372036854775807u64 {
            None
        } else {
            Some(value as i64)
        }
    }
}

} // verus!
