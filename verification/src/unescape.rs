//! Escaping a text for a page loses nothing: turning the three entities back, `&lt;` and `&gt;`
//! first and `&amp;` last, gives the text that was escaped.

use vstd::prelude::*;
use crate::text::replace_all;
use crate::shell::escaped;

verus! {

/// The text with each `&`, `<` and `>` written as `amp`, `lt` and `gt`, and every other character as
/// it is.
pub open spec fn blocks(s: Seq<char>, amp: Seq<char>, lt: Seq<char>, gt: Seq<char>) -> Seq<char>
    decreases s.len(),
{
    if s.len() == 0 {
        seq![]
    } else {
        (if s[0] == '&' {
            amp
        } else if s[0] == '<' {
            lt
        } else if s[0] == '>' {
            gt
        } else {
            seq![s[0]]
        }) + blocks(s.drop_first(), amp, lt, gt)
    }
}

/// The text an escaped page text turns back into: `&lt;` and `&gt;` first, `&amp;` last.
pub open spec fn unescaped(e: Seq<char>) -> Seq<char> {
    replace_all(replace_all(replace_all(e, "&lt;"@, "<"@), "&gt;"@, ">"@), "&amp;"@, "&"@)
}

/// Replacing one character, character by character.
pub open spec fn swapped(s: Seq<char>, c: char, rep: Seq<char>) -> Seq<char>
    decreases s.len(),
{
    if s.len() == 0 {
        seq![]
    } else {
        (if s[0] == c {
            rep
        } else {
            seq![s[0]]
        }) + swapped(s.drop_first(), c, rep)
    }
}

proof fn lemma_replace_one_char(s: Seq<char>, c: char, rep: Seq<char>)
    ensures
        replace_all(s, seq![c], rep) == swapped(s, c, rep),
    decreases s.len(),
{
    if s.len() > 0 {
        lemma_replace_one_char(s.drop_first(), c, rep);
        assert(s.skip(1) =~= s.drop_first());
        if s[0] == c {
            assert(s.take(1) =~= seq![c]);
        } else {
            assert(s.take(1)[0] == s[0]);
        }
    } else {
        assert(s =~= Seq::<char>::empty());
    }
}

proof fn lemma_swapped_add(x: Seq<char>, y: Seq<char>, c: char, rep: Seq<char>)
    ensures
        swapped(x + y, c, rep) == swapped(x, c, rep) + swapped(y, c, rep),
    decreases x.len(),
{
    if x.len() == 0 {
        assert(x + y =~= y);
    } else {
        assert((x + y).drop_first() =~= x.drop_first() + y);
        assert((x + y)[0] == x[0]);
        lemma_swapped_add(x.drop_first(), y, c, rep);
    }
}

proof fn lemma_swapped_free(x: Seq<char>, c: char, rep: Seq<char>)
    requires
        !x.contains(c),
    ensures
        swapped(x, c, rep) == x,
    decreases x.len(),
{
    if x.len() > 0 {
        assert(x[0] != c);
        assert(!x.drop_first().contains(c)) by {
            if x.drop_first().contains(c) {
                let j = choose|j: int| 0 <= j < x.drop_first().len() && x.drop_first()[j] == c;
                assert(x[j + 1] == c);
            }
        }
        lemma_swapped_free(x.drop_first(), c, rep);
        assert(seq![x[0]] + x.drop_first() =~= x);
    }
}

/// Escaping writes each character as its own block.
proof fn lemma_escaped_is_blocks(s: Seq<char>)
    ensures
        escaped(s) == blocks(s, "&amp;"@, "&lt;"@, "&gt;"@),
    decreases s.len(),
{
    reveal_strlit("&");
    reveal_strlit("<");
    reveal_strlit(">");
    reveal_strlit("&amp;");
    reveal_strlit("&lt;");
    reveal_strlit("&gt;");
    assert("&"@ =~= seq!['&']);
    assert("<"@ =~= seq!['<']);
    assert(">"@ =~= seq!['>']);
    lemma_escape_steps(s);
}

proof fn lemma_swapped_one(x: char, c: char, rep: Seq<char>)
    ensures
        swapped(seq![x], c, rep) == (if x == c { rep } else { seq![x] }),
{
    assert(seq![x].drop_first() =~= Seq::<char>::empty());
    assert(swapped(Seq::<char>::empty(), c, rep) =~= Seq::<char>::empty());
    if x == c {
        assert(rep + Seq::<char>::empty() =~= rep);
    } else {
        assert(seq![x] + Seq::<char>::empty() =~= seq![x]);
    }
}

proof fn lemma_escape_steps(s: Seq<char>)
    ensures
        swapped(swapped(swapped(s, '&', "&amp;"@), '<', "&lt;"@), '>', "&gt;"@) == blocks(s, "&amp;"@, "&lt;"@, "&gt;"@),
        replace_all(s, seq!['&'], "&amp;"@) == swapped(s, '&', "&amp;"@),
        replace_all(swapped(s, '&', "&amp;"@), seq!['<'], "&lt;"@) == swapped(swapped(s, '&', "&amp;"@), '<', "&lt;"@),
        replace_all(swapped(swapped(s, '&', "&amp;"@), '<', "&lt;"@), seq!['>'], "&gt;"@)
            == swapped(swapped(swapped(s, '&', "&amp;"@), '<', "&lt;"@), '>', "&gt;"@),
    decreases s.len(),
{
    reveal_strlit("&amp;");
    reveal_strlit("&lt;");
    reveal_strlit("&gt;");
    let amp = "&amp;"@;
    let lt = "&lt;"@;
    let gt = "&gt;"@;
    lemma_replace_one_char(s, '&', amp);
    lemma_replace_one_char(swapped(s, '&', amp), '<', lt);
    lemma_replace_one_char(swapped(swapped(s, '&', amp), '<', lt), '>', gt);
    if s.len() > 0 {
        lemma_escape_steps(s.drop_first());
        let c = s[0];
        let rest = s.drop_first();
        let b1 = if c == '&' { amp } else { seq![c] };
        let r1 = swapped(rest, '&', amp);
        assert(swapped(s, '&', amp) == b1 + r1);
        lemma_swapped_add(b1, r1, '<', lt);
        let b2 = if c == '&' { amp } else if c == '<' { lt } else { seq![c] };
        assert(!amp.contains('<')) by {
            assert forall|i: int| 0 <= i < 5 implies amp[i] != '<' by {}
        }
        if c == '&' {
            lemma_swapped_free(b1, '<', lt);
        } else {
            lemma_swapped_one(c, '<', lt);
        }
        assert(swapped(b1, '<', lt) == b2);
        let r2 = swapped(r1, '<', lt);
        lemma_swapped_add(b2, r2, '>', gt);
        assert(!amp.contains('>')) by {
            assert forall|i: int| 0 <= i < 5 implies amp[i] != '>' by {}
        }
        assert(!lt.contains('>')) by {
            assert forall|i: int| 0 <= i < 4 implies lt[i] != '>' by {}
        }
        let b3 = if c == '&' { amp } else if c == '<' { lt } else if c == '>' { gt } else { seq![c] };
        if c == '&' || c == '<' {
            lemma_swapped_free(b2, '>', gt);
        } else {
            lemma_swapped_one(c, '>', gt);
        }
        assert(swapped(b2, '>', gt) == b3);
        assert(blocks(s, amp, lt, gt) == b3 + blocks(rest, amp, lt, gt));
    }
}

/// A text with no `&` in front of the rest passes the scan for an `&`-pattern untouched.
proof fn lemma_replace_past(p: Seq<char>, t: Seq<char>, pat: Seq<char>, rep: Seq<char>)
    requires
        pat.len() > 0,
        pat[0] == '&',
        !p.contains('&'),
    ensures
        replace_all(p + t, pat, rep) == p + replace_all(t, pat, rep),
    decreases p.len(),
{
    if p.len() > 0 {
        let s = p + t;
        assert(s[0] == p[0]);
        assert(p[0] != '&');
        assert(!p.drop_first().contains('&')) by {
            if p.drop_first().contains('&') {
                let j = choose|j: int| 0 <= j < p.drop_first().len() && p.drop_first()[j] == '&';
                assert(p[j + 1] == '&');
            }
        }
        lemma_replace_past(p.drop_first(), t, pat, rep);
        assert(s.drop_first() =~= p.drop_first() + t);
        if s.len() >= pat.len() {
            assert(s.take(pat.len() as int)[0] != pat[0]);
        } else {
            assert(t.len() < pat.len());
        }
        assert(seq![p[0]] + p.drop_first() =~= p);
    } else {
        assert(p + t =~= t);
    }
}

/// What the scan for an entity may meet at a block's start: a single character other than `&`, or
/// an `&` whose block has no other `&` and either is the entity or parts from it at its second
/// character.
pub open spec fn block_fits(blk: Seq<char>, pat: Seq<char>) -> bool {
    &&& blk.len() >= 1
    &&& blk.len() == 1 ==> blk[0] != '&'
    &&& blk.len() > 1 ==> blk[0] == '&' && !blk.drop_first().contains('&') && (blk == pat || blk[1]
        != pat[1])
}

/// One block followed by the rest, scanned for an entity: the block turns into `rep` when it is the
/// entity, and stays as it is otherwise.
proof fn lemma_replace_block(blk: Seq<char>, t: Seq<char>, pat: Seq<char>, rep: Seq<char>)
    requires
        pat.len() > 1,
        pat[0] == '&',
        block_fits(blk, pat),
    ensures
        replace_all(blk + t, pat, rep) == (if blk == pat { rep } else { blk }) + replace_all(t, pat, rep),
{
    let s = blk + t;
    if blk == pat {
        assert(s.take(pat.len() as int) =~= pat);
        assert(s.skip(pat.len() as int) =~= t);
    } else if blk.len() == 1 {
        assert(!blk.contains('&'));
        lemma_replace_past(blk, t, pat, rep);
    } else {
        if s.len() < pat.len() {
            assert(t.len() < pat.len());
        } else {
            assert(s.take(pat.len() as int)[1] == blk[1]);
            assert(s.take(pat.len() as int) != pat);
            assert(s.drop_first() =~= blk.drop_first() + t);
            lemma_replace_past(blk.drop_first(), t, pat, rep);
            assert(seq![blk[0]] + (blk.drop_first() + replace_all(t, pat, rep)) =~= blk + replace_all(
                t,
                pat,
                rep,
            ));
        }
    }
}

/// The block an entity scan leaves: the entity itself turns into `rep`.
pub open spec fn after(blk: Seq<char>, pat: Seq<char>, rep: Seq<char>) -> Seq<char> {
    if blk == pat {
        rep
    } else {
        blk
    }
}

/// Scanning a text made of blocks for an entity works block by block.
proof fn lemma_replace_blocks(
    s: Seq<char>,
    amp: Seq<char>,
    lt: Seq<char>,
    gt: Seq<char>,
    pat: Seq<char>,
    rep: Seq<char>,
)
    requires
        pat.len() > 1,
        pat[0] == '&',
        block_fits(amp, pat),
        block_fits(lt, pat),
        block_fits(gt, pat),
    ensures
        replace_all(blocks(s, amp, lt, gt), pat, rep) == blocks(
            s,
            after(amp, pat, rep),
            after(lt, pat, rep),
            after(gt, pat, rep),
        ),
    decreases s.len(),
{
    if s.len() > 0 {
        let c = s[0];
        let b = if c == '&' {
            amp
        } else if c == '<' {
            lt
        } else if c == '>' {
            gt
        } else {
            seq![c]
        };
        assert(block_fits(b, pat));
        lemma_replace_block(b, blocks(s.drop_first(), amp, lt, gt), pat, rep);
        lemma_replace_blocks(s.drop_first(), amp, lt, gt, pat, rep);
        if c != '&' && c != '<' && c != '>' {
            assert(seq![c] != pat) by {
                assert(seq![c].len() != pat.len());
            }
        }
    } else {
        assert(blocks(s, amp, lt, gt) =~= Seq::<char>::empty());
        assert(replace_all(Seq::<char>::empty(), pat, rep) =~= Seq::<char>::empty());
    }
}

/// A text whose three characters are written as themselves is the text.
proof fn lemma_blocks_of_themselves(s: Seq<char>)
    ensures
        blocks(s, seq!['&'], seq!['<'], seq!['>']) == s,
    decreases s.len(),
{
    if s.len() > 0 {
        lemma_blocks_of_themselves(s.drop_first());
        assert(seq![s[0]] + s.drop_first() =~= s);
        if s[0] == '&' {
            assert(seq!['&'] =~= seq![s[0]]);
        } else if s[0] == '<' {
            assert(seq!['<'] =~= seq![s[0]]);
        } else if s[0] == '>' {
            assert(seq!['>'] =~= seq![s[0]]);
        }
    } else {
        assert(blocks(s, seq!['&'], seq!['<'], seq!['>']) =~= s);
    }
}

proof fn lemma_no_amp_after_first(b: Seq<char>)
    requires
        b.len() >= 1,
        forall|i: int| 1 <= i < b.len() ==> b[i] != '&',
    ensures
        !b.drop_first().contains('&'),
{
    assert forall|j: int| 0 <= j < b.drop_first().len() implies b.drop_first()[j] != '&' by {
        assert(b.drop_first()[j] == b[j + 1]);
    }
}

/// Turning the entities of an escaped text back gives the text that was escaped: escaping loses
/// nothing.
pub proof fn law_unescaping_gives_the_text_back(s: Seq<char>)
    ensures
        unescaped(escaped(s)) == s,
{
    reveal_strlit("&amp;");
    reveal_strlit("&lt;");
    reveal_strlit("&gt;");
    reveal_strlit("&");
    reveal_strlit("<");
    reveal_strlit(">");
    let amp = "&amp;"@;
    let lt = "&lt;"@;
    let gt = "&gt;"@;
    let l1 = "<"@;
    let g1 = ">"@;
    let a1 = "&"@;
    assert(l1 =~= seq!['<']);
    assert(g1 =~= seq!['>']);
    assert(a1 =~= seq!['&']);
    lemma_escaped_is_blocks(s);
    lemma_no_amp_after_first(amp);
    lemma_no_amp_after_first(lt);
    lemma_no_amp_after_first(gt);
    assert(amp != lt) by {
        assert(amp.len() != lt.len());
    }
    assert(gt != lt) by {
        assert(gt[1] != lt[1]);
    }
    assert(amp != gt) by {
        assert(amp.len() != gt.len());
    }
    lemma_replace_blocks(s, amp, lt, gt, lt, l1);
    assert(after(amp, lt, l1) == amp);
    assert(after(lt, lt, l1) == l1);
    assert(after(gt, lt, l1) == gt);
    assert(l1 != gt) by {
        assert(l1.len() != gt.len());
    }
    lemma_replace_blocks(s, amp, l1, gt, gt, g1);
    assert(after(amp, gt, g1) == amp);
    assert(after(l1, gt, g1) == l1);
    assert(after(gt, gt, g1) == g1);
    assert(l1 != amp) by {
        assert(l1.len() != amp.len());
    }
    assert(g1 != amp) by {
        assert(g1.len() != amp.len());
    }
    lemma_replace_blocks(s, amp, l1, g1, amp, a1);
    assert(after(amp, amp, a1) == a1);
    assert(after(l1, amp, a1) == l1);
    assert(after(g1, amp, a1) == g1);
    lemma_blocks_of_themselves(s);
}

} // verus!
