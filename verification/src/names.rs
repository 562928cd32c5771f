//! Taking an artist out of the title it was filed inside.
//!
//! A corpus files one song's two fields in one string: `Bob Dylan-A Hard Rain's A-Gonna Fall` and
//! `Bob Marley - Natural Mystic 1982`. **The first ASCII hyphen is the seam, and only the first**:
//! a title holds dashes of its own, and an en dash or an em dash is typography rather than the
//! seam. **Both halves have to be there**: `-Foo` and `Foo-` hold no artist to take out.

use vstd::prelude::*;

use crate::text::{chars_of, find_char, first_at, slice_of, string_of, trim, trim_chars};

verus! {

/// The artist and the title a name holds, or `None` when there is nothing to take out of it.
///
/// Cut at the first `-`, each half trimmed, and both halves non-empty.
pub open spec fn artist_title_of(s: Seq<char>) -> Option<(Seq<char>, Seq<char>)> {
    if s.contains('-') {
        let k = choose|k: int| first_at(s, '-', k);
        let artist = trim(s.take(k));
        let title = trim(s.skip(k + 1));
        if artist.len() > 0 && title.len() > 0 {
            Some((artist, title))
        } else {
            None
        }
    } else {
        None
    }
}

/// The artist and the title, in that order, or `None` for a name with nothing to take out of it.
///
/// `None` covers the three ways there is nothing to decide: no hyphen, nothing before the first
/// one, or nothing after it. Each half is trimmed, so the spaced and the unspaced spelling of the
/// same defect answer the same way.
pub fn artist_and_title(value: &str) -> (out: Option<(String, String)>)
    ensures
        match (out, artist_title_of(value@)) {
            (Some((artist, title)), Some((a, t))) => artist@ == a && title@ == t,
            (None, None) => true,
            _ => false,
        },
{
    let v = chars_of(value);
    match find_char(v.as_slice(), '-') {
        None => None,
        Some(k) => {
            proof {
                let kk = choose|kk: int| first_at(v@, '-', kk);
                crate::text::lemma_first_at_unique(v@, '-', k as int, kk);
                assert(first_at(v@, '-', k as int));
            }
            assert(k < v.len());
            let before = slice_of(v.as_slice(), 0, k);
            let after = slice_of(v.as_slice(), k + 1, v.len());
            let artist = trim_chars(before.as_slice());
            let title = trim_chars(after.as_slice());
            proof {
                assert(before@ =~= v@.take(k as int));
                assert(after@ =~= v@.skip(k + 1));
            }
            if artist.len() > 0 && title.len() > 0 {
                Some((string_of(artist.as_slice()), string_of(title.as_slice())))
            } else {
                None
            }
        },
    }
}

/// **The first hyphen is the seam, and both halves have to be there**: a name with no hyphen
/// holds no artist; an artist taken out is never empty and never holds a hyphen itself, the title
/// is never empty, and the two are what stands either side of a hyphen in the name, trimmed.
pub proof fn law_the_first_hyphen_is_the_seam(s: Seq<char>)
    ensures
        !s.contains('-') ==> artist_title_of(s) is None,
        artist_title_of(s) matches Some((a, t)) ==> a.len() > 0 && t.len() > 0 && !a.contains('-'),
        artist_title_of(s) matches Some((a, t)) ==> exists|k: int|
            0 <= k < s.len() && s[k] == '-' && #[trigger] trim(s.take(k)) == a && trim(s.skip(k + 1)) == t,
{
    if s.contains('-') {
        let j = choose|j: int| 0 <= j < s.len() && s[j] == '-';
        crate::text::lemma_index_of(s, '-');
        let k = choose|k: int| first_at(s, '-', k);
        if first_at(s, '-', k) {
            assert(!s.take(k).contains('-')) by {
                if s.take(k).contains('-') {
                    let i = choose|i: int| 0 <= i < s.take(k).len() && s.take(k)[i] == '-';
                    assert(s[i] == '-');
                }
            }
            crate::round_trip::lemma_trim_within(s.take(k), '-');
        }
    }
}

} // verus!
