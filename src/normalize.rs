//! Rewriting of known alternate spellings of the glyphs (chat shortcodes and
//! image descriptions) into the canonical glyphs.
use vstd::prelude::*;

use crate::glyph::{BLACK, GREEN, YELLOW};

verus! {

/// Whether `pat` occurs in `s` at position `i`.
pub open spec fn occurs_at(s: Seq<char>, pat: Seq<char>, i: int) -> bool {
    0 <= i && i + pat.len() <= s.len() && s.subrange(i, i + pat.len()) == pat
}

/// `s` with each occurrence of a non-empty `pat`, taken left to right without
/// overlap, replaced by `rep`. An empty `pat` leaves `s` as it is.
pub open spec fn replace_all(s: Seq<char>, pat: Seq<char>, rep: Seq<char>) -> Seq<char>
    decreases s.len(),
{
    if s.len() == 0 {
        s
    } else if pat.len() > 0 && occurs_at(s, pat, 0) {
        rep + replace_all(s.subrange(pat.len() as int, s.len() as int), pat, rep)
    } else {
        seq![s[0]] + replace_all(s.subrange(1, s.len() as int), pat, rep)
    }
}

/// The text with every alternate spelling replaced, in this order.
pub open spec fn normalized(s: Seq<char>) -> Seq<char> {
    let s = replace_all(s, ":black_large_square:"@, seq![BLACK]);
    let s = replace_all(s, ":white_large_square:"@, seq![BLACK]);
    let s = replace_all(s, ":large_green_square:"@, seq![GREEN]);
    let s = replace_all(s, ":large_orange_square:"@, seq![GREEN]);
    let s = replace_all(s, ":large_yellow_square:"@, seq![YELLOW]);
    let s = replace_all(s, ":large_blue_square:"@, seq![YELLOW]);
    let s = replace_all(s, "Black large square"@, seq![BLACK]);
    let s = replace_all(s, "Green square"@, seq![GREEN]);
    let s = replace_all(s, "Orange square"@, seq![GREEN]);
    let s = replace_all(s, "Yellow square"@, seq![YELLOW]);
    replace_all(s, "Blue square"@, seq![YELLOW])
}

/// `pat` occurs nowhere in `s`.
pub open spec fn free_of(s: Seq<char>, pat: Seq<char>) -> bool {
    forall|i: int| #![trigger occurs_at(s, pat, i)] !occurs_at(s, pat, i)
}

/// `s` holds `w` at its start.
pub open spec fn starts_with(s: Seq<char>, w: Seq<char>) -> bool {
    w.len() <= s.len() && s.subrange(0, w.len() as int) == w
}

proof fn lemma_free_suffix(s: Seq<char>, pat: Seq<char>, k: int)
    requires
        0 <= k <= s.len(),
        free_of(s, pat),
    ensures
        free_of(s.subrange(k, s.len() as int), pat),
{
    let t = s.subrange(k, s.len() as int);
    assert forall|i: int| #![trigger occurs_at(t, pat, i)] !occurs_at(t, pat, i) by {
        if occurs_at(t, pat, i) {
            assert(s.subrange(i + k, i + k + pat.len()) =~= t.subrange(i, i + pat.len()));
            assert(occurs_at(s, pat, i + k));
        }
    }
}

/// A start of the rewritten text that does not hold `g` was already at the
/// start of the text.
proof fn lemma_prefix_kept(s: Seq<char>, q: Seq<char>, g: char, w: Seq<char>)
    requires
        q.len() > 0,
        !w.contains(g),
        starts_with(replace_all(s, q, seq![g]), w),
    ensures
        starts_with(s, w),
    decreases s.len(),
{
    let r = replace_all(s, q, seq![g]);
    if w.len() > 0 && s.len() > 0 {
        if occurs_at(s, q, 0) {
            assert(r[0] == g);
            assert(w[0] == r.subrange(0, w.len() as int)[0]);
        } else {
            let t = s.subrange(1, s.len() as int);
            let r1 = replace_all(t, q, seq![g]);
            let w1 = w.subrange(1, w.len() as int);
            assert(r == seq![s[0]] + r1);
            assert(r1.subrange(0, w1.len() as int) =~= r.subrange(0, w.len() as int).subrange(1, w.len() as int));
            assert forall|i: int| 0 <= i < w1.len() implies w1[i] != g by {
                assert(w1[i] == w[i + 1]);
            }
            lemma_prefix_kept(t, q, g, w1);
            assert(w[0] == r.subrange(0, w.len() as int)[0]);
            assert(s.subrange(0, w.len() as int) =~= seq![s[0]] + t.subrange(0, w1.len() as int));
            assert(w =~= seq![w[0]] + w1);
        }
    } else if w.len() > 0 {
        assert(r.len() == 0);
    } else {
        assert(s.subrange(0, 0) =~= w);
    }
}

/// Rewriting `q` into a glyph that `pat` does not hold leaves no occurrence of
/// `pat` where there was none, and none of `pat` itself.
pub proof fn lemma_replace_leaves_free(s: Seq<char>, pat: Seq<char>, q: Seq<char>, g: char)
    requires
        pat.len() > 0,
        q.len() > 0,
        !pat.contains(g),
        pat == q || free_of(s, pat),
    ensures
        free_of(replace_all(s, q, seq![g]), pat),
    decreases s.len(),
{
    let r = replace_all(s, q, seq![g]);
    if s.len() > 0 {
        let k: int = if occurs_at(s, q, 0) { q.len() as int } else { 1 };
        let t = s.subrange(k, s.len() as int);
        let r1 = replace_all(t, q, seq![g]);
        if pat != q {
            lemma_free_suffix(s, pat, k);
        }
        lemma_replace_leaves_free(t, pat, q, g);
        let head: Seq<char> = if occurs_at(s, q, 0) { seq![g] } else { seq![s[0]] };
        assert(r == head + r1);
        assert forall|i: int| #![trigger occurs_at(r, pat, i)] !occurs_at(r, pat, i) by {
            if occurs_at(r, pat, i) {
                if i >= 1 {
                    assert(r1.subrange(i - 1, i - 1 + pat.len()) =~= r.subrange(i, i + pat.len()));
                    assert(occurs_at(r1, pat, i - 1));
                } else if occurs_at(s, q, 0) {
                    assert(pat[0] == r.subrange(0, pat.len() as int)[0]);
                    assert(pat.contains(g));
                } else {
                    lemma_prefix_kept(s, q, g, pat);
                    assert(occurs_at(s, pat, 0));
                }
            }
        }
    }
}

/// Where `pat` occurs nowhere, rewriting it changes nothing.
pub proof fn lemma_replace_free(s: Seq<char>, pat: Seq<char>, rep: Seq<char>)
    requires
        pat.len() > 0,
        free_of(s, pat),
    ensures
        replace_all(s, pat, rep) == s,
    decreases s.len(),
{
    if s.len() > 0 {
        lemma_free_suffix(s, pat, 1);
        lemma_replace_free(s.subrange(1, s.len() as int), pat, rep);
        assert(seq![s[0]] + s.subrange(1, s.len() as int) =~= s);
    }
}

/// Rewritten text holds no alternate spelling any more: rewriting it again
/// changes nothing.
pub proof fn lemma_normalized_idempotent(s: Seq<char>)
    ensures
        normalized(normalized(s)) == normalized(s),
{
    reveal_strlit(":black_large_square:");
    reveal_strlit(":white_large_square:");
    reveal_strlit(":large_green_square:");
    reveal_strlit(":large_orange_square:");
    reveal_strlit(":large_yellow_square:");
    reveal_strlit(":large_blue_square:");
    reveal_strlit("Black large square");
    reveal_strlit("Green square");
    reveal_strlit("Orange square");
    reveal_strlit("Yellow square");
    reveal_strlit("Blue square");
    assert(!":black_large_square:"@.contains(BLACK));
    assert(!":black_large_square:"@.contains(GREEN));
    assert(!":black_large_square:"@.contains(YELLOW));
    assert(!":white_large_square:"@.contains(BLACK));
    assert(!":white_large_square:"@.contains(GREEN));
    assert(!":white_large_square:"@.contains(YELLOW));
    assert(!":large_green_square:"@.contains(BLACK));
    assert(!":large_green_square:"@.contains(GREEN));
    assert(!":large_green_square:"@.contains(YELLOW));
    assert(!":large_orange_square:"@.contains(BLACK));
    assert(!":large_orange_square:"@.contains(GREEN));
    assert(!":large_orange_square:"@.contains(YELLOW));
    assert(!":large_yellow_square:"@.contains(BLACK));
    assert(!":large_yellow_square:"@.contains(GREEN));
    assert(!":large_yellow_square:"@.contains(YELLOW));
    assert(!":large_blue_square:"@.contains(BLACK));
    assert(!":large_blue_square:"@.contains(GREEN));
    assert(!":large_blue_square:"@.contains(YELLOW));
    assert(!"Black large square"@.contains(BLACK));
    assert(!"Black large square"@.contains(GREEN));
    assert(!"Black large square"@.contains(YELLOW));
    assert(!"Green square"@.contains(BLACK));
    assert(!"Green square"@.contains(GREEN));
    assert(!"Green square"@.contains(YELLOW));
    assert(!"Orange square"@.contains(BLACK));
    assert(!"Orange square"@.contains(GREEN));
    assert(!"Orange square"@.contains(YELLOW));
    assert(!"Yellow square"@.contains(BLACK));
    assert(!"Yellow square"@.contains(GREEN));
    assert(!"Yellow square"@.contains(YELLOW));
    assert(!"Blue square"@.contains(BLACK));
    assert(!"Blue square"@.contains(GREEN));
    assert(!"Blue square"@.contains(YELLOW));
    let t0 = s;
    let t1 = replace_all(t0, ":black_large_square:"@, seq![BLACK]);
    lemma_replace_leaves_free(t0, ":black_large_square:"@, ":black_large_square:"@, BLACK);
    let t2 = replace_all(t1, ":white_large_square:"@, seq![BLACK]);
    lemma_replace_leaves_free(t1, ":black_large_square:"@, ":white_large_square:"@, BLACK);
    lemma_replace_leaves_free(t1, ":white_large_square:"@, ":white_large_square:"@, BLACK);
    let t3 = replace_all(t2, ":large_green_square:"@, seq![GREEN]);
    lemma_replace_leaves_free(t2, ":black_large_square:"@, ":large_green_square:"@, GREEN);
    lemma_replace_leaves_free(t2, ":white_large_square:"@, ":large_green_square:"@, GREEN);
    lemma_replace_leaves_free(t2, ":large_green_square:"@, ":large_green_square:"@, GREEN);
    let t4 = replace_all(t3, ":large_orange_square:"@, seq![GREEN]);
    lemma_replace_leaves_free(t3, ":black_large_square:"@, ":large_orange_square:"@, GREEN);
    lemma_replace_leaves_free(t3, ":white_large_square:"@, ":large_orange_square:"@, GREEN);
    lemma_replace_leaves_free(t3, ":large_green_square:"@, ":large_orange_square:"@, GREEN);
    lemma_replace_leaves_free(t3, ":large_orange_square:"@, ":large_orange_square:"@, GREEN);
    let t5 = replace_all(t4, ":large_yellow_square:"@, seq![YELLOW]);
    lemma_replace_leaves_free(t4, ":black_large_square:"@, ":large_yellow_square:"@, YELLOW);
    lemma_replace_leaves_free(t4, ":white_large_square:"@, ":large_yellow_square:"@, YELLOW);
    lemma_replace_leaves_free(t4, ":large_green_square:"@, ":large_yellow_square:"@, YELLOW);
    lemma_replace_leaves_free(t4, ":large_orange_square:"@, ":large_yellow_square:"@, YELLOW);
    lemma_replace_leaves_free(t4, ":large_yellow_square:"@, ":large_yellow_square:"@, YELLOW);
    let t6 = replace_all(t5, ":large_blue_square:"@, seq![YELLOW]);
    lemma_replace_leaves_free(t5, ":black_large_square:"@, ":large_blue_square:"@, YELLOW);
    lemma_replace_leaves_free(t5, ":white_large_square:"@, ":large_blue_square:"@, YELLOW);
    lemma_replace_leaves_free(t5, ":large_green_square:"@, ":large_blue_square:"@, YELLOW);
    lemma_replace_leaves_free(t5, ":large_orange_square:"@, ":large_blue_square:"@, YELLOW);
    lemma_replace_leaves_free(t5, ":large_yellow_square:"@, ":large_blue_square:"@, YELLOW);
    lemma_replace_leaves_free(t5, ":large_blue_square:"@, ":large_blue_square:"@, YELLOW);
    let t7 = replace_all(t6, "Black large square"@, seq![BLACK]);
    lemma_replace_leaves_free(t6, ":black_large_square:"@, "Black large square"@, BLACK);
    lemma_replace_leaves_free(t6, ":white_large_square:"@, "Black large square"@, BLACK);
    lemma_replace_leaves_free(t6, ":large_green_square:"@, "Black large square"@, BLACK);
    lemma_replace_leaves_free(t6, ":large_orange_square:"@, "Black large square"@, BLACK);
    lemma_replace_leaves_free(t6, ":large_yellow_square:"@, "Black large square"@, BLACK);
    lemma_replace_leaves_free(t6, ":large_blue_square:"@, "Black large square"@, BLACK);
    lemma_replace_leaves_free(t6, "Black large square"@, "Black large square"@, BLACK);
    let t8 = replace_all(t7, "Green square"@, seq![GREEN]);
    lemma_replace_leaves_free(t7, ":black_large_square:"@, "Green square"@, GREEN);
    lemma_replace_leaves_free(t7, ":white_large_square:"@, "Green square"@, GREEN);
    lemma_replace_leaves_free(t7, ":large_green_square:"@, "Green square"@, GREEN);
    lemma_replace_leaves_free(t7, ":large_orange_square:"@, "Green square"@, GREEN);
    lemma_replace_leaves_free(t7, ":large_yellow_square:"@, "Green square"@, GREEN);
    lemma_replace_leaves_free(t7, ":large_blue_square:"@, "Green square"@, GREEN);
    lemma_replace_leaves_free(t7, "Black large square"@, "Green square"@, GREEN);
    lemma_replace_leaves_free(t7, "Green square"@, "Green square"@, GREEN);
    let t9 = replace_all(t8, "Orange square"@, seq![GREEN]);
    lemma_replace_leaves_free(t8, ":black_large_square:"@, "Orange square"@, GREEN);
    lemma_replace_leaves_free(t8, ":white_large_square:"@, "Orange square"@, GREEN);
    lemma_replace_leaves_free(t8, ":large_green_square:"@, "Orange square"@, GREEN);
    lemma_replace_leaves_free(t8, ":large_orange_square:"@, "Orange square"@, GREEN);
    lemma_replace_leaves_free(t8, ":large_yellow_square:"@, "Orange square"@, GREEN);
    lemma_replace_leaves_free(t8, ":large_blue_square:"@, "Orange square"@, GREEN);
    lemma_replace_leaves_free(t8, "Black large square"@, "Orange square"@, GREEN);
    lemma_replace_leaves_free(t8, "Green square"@, "Orange square"@, GREEN);
    lemma_replace_leaves_free(t8, "Orange square"@, "Orange square"@, GREEN);
    let t10 = replace_all(t9, "Yellow square"@, seq![YELLOW]);
    lemma_replace_leaves_free(t9, ":black_large_square:"@, "Yellow square"@, YELLOW);
    lemma_replace_leaves_free(t9, ":white_large_square:"@, "Yellow square"@, YELLOW);
    lemma_replace_leaves_free(t9, ":large_green_square:"@, "Yellow square"@, YELLOW);
    lemma_replace_leaves_free(t9, ":large_orange_square:"@, "Yellow square"@, YELLOW);
    lemma_replace_leaves_free(t9, ":large_yellow_square:"@, "Yellow square"@, YELLOW);
    lemma_replace_leaves_free(t9, ":large_blue_square:"@, "Yellow square"@, YELLOW);
    lemma_replace_leaves_free(t9, "Black large square"@, "Yellow square"@, YELLOW);
    lemma_replace_leaves_free(t9, "Green square"@, "Yellow square"@, YELLOW);
    lemma_replace_leaves_free(t9, "Orange square"@, "Yellow square"@, YELLOW);
    lemma_replace_leaves_free(t9, "Yellow square"@, "Yellow square"@, YELLOW);
    let t11 = replace_all(t10, "Blue square"@, seq![YELLOW]);
    lemma_replace_leaves_free(t10, ":black_large_square:"@, "Blue square"@, YELLOW);
    lemma_replace_leaves_free(t10, ":white_large_square:"@, "Blue square"@, YELLOW);
    lemma_replace_leaves_free(t10, ":large_green_square:"@, "Blue square"@, YELLOW);
    lemma_replace_leaves_free(t10, ":large_orange_square:"@, "Blue square"@, YELLOW);
    lemma_replace_leaves_free(t10, ":large_yellow_square:"@, "Blue square"@, YELLOW);
    lemma_replace_leaves_free(t10, ":large_blue_square:"@, "Blue square"@, YELLOW);
    lemma_replace_leaves_free(t10, "Black large square"@, "Blue square"@, YELLOW);
    lemma_replace_leaves_free(t10, "Green square"@, "Blue square"@, YELLOW);
    lemma_replace_leaves_free(t10, "Orange square"@, "Blue square"@, YELLOW);
    lemma_replace_leaves_free(t10, "Yellow square"@, "Blue square"@, YELLOW);
    lemma_replace_leaves_free(t10, "Blue square"@, "Blue square"@, YELLOW);
    let n = normalized(s);
    assert(n == t11);
    lemma_replace_free(n, ":black_large_square:"@, seq![BLACK]);
    lemma_replace_free(n, ":white_large_square:"@, seq![BLACK]);
    lemma_replace_free(n, ":large_green_square:"@, seq![GREEN]);
    lemma_replace_free(n, ":large_orange_square:"@, seq![GREEN]);
    lemma_replace_free(n, ":large_yellow_square:"@, seq![YELLOW]);
    lemma_replace_free(n, ":large_blue_square:"@, seq![YELLOW]);
    lemma_replace_free(n, "Black large square"@, seq![BLACK]);
    lemma_replace_free(n, "Green square"@, seq![GREEN]);
    lemma_replace_free(n, "Orange square"@, seq![GREEN]);
    lemma_replace_free(n, "Yellow square"@, seq![YELLOW]);
    lemma_replace_free(n, "Blue square"@, seq![YELLOW]);
}

/// The characters of `s`, in order.
pub fn chars_of(s: &str) -> (r: Vec<char>)
    ensures
        r@ == s@,
{
    let n = s.unicode_len();
    let mut r: Vec<char> = Vec::new();
    let mut i: usize = 0;
    while i < n
        invariant
            n == s@.len(),
            i <= n,
            r@ == s@.subrange(0, i as int),
        decreases n - i,
    {
        r.push(s.get_char(i));
        i += 1;
    }
    assert(r@ =~= s@);
    r
}

/// Whether `pat` occurs in `s` at position `i`.
fn matches_at(s: &Vec<char>, pat: &Vec<char>, i: usize) -> (r: bool)
    requires
        i <= s@.len(),
    ensures
        r == occurs_at(s@, pat@, i as int),
{
    if pat.len() > s.len() - i {
        return false;
    }
    let mut j: usize = 0;
    while j < pat.len()
        invariant
            i + pat@.len() <= s@.len(),
            s@.len() <= usize::MAX,
            j <= pat@.len(),
            forall|k: int| 0 <= k < j ==> s@[i + k] == pat@[k],
        decreases pat@.len() - j,
    {
        if s[i + j] != pat[j] {
            assert(s@.subrange(i as int, i + pat@.len())[j as int] != pat@[j as int]);
            return false;
        }
        j += 1;
    }
    assert(s@.subrange(i as int, i + pat@.len()) =~= pat@);
    true
}

proof fn lemma_replace_all_step(s: Seq<char>, pat: Seq<char>, rep: Seq<char>, i: int)
    requires
        0 <= i < s.len(),
    ensures
        pat.len() > 0 && occurs_at(s, pat, i) ==> replace_all(s.subrange(i, s.len() as int), pat, rep)
            == rep + replace_all(s.subrange(i + pat.len(), s.len() as int), pat, rep),
        !(pat.len() > 0 && occurs_at(s, pat, i)) ==> replace_all(s.subrange(i, s.len() as int), pat, rep)
            == seq![s[i]] + replace_all(s.subrange(i + 1, s.len() as int), pat, rep),
{
    let t = s.subrange(i, s.len() as int);
    assert(occurs_at(s, pat, i) <==> occurs_at(t, pat, 0)) by {
        if i + pat.len() <= s.len() {
            assert(t.subrange(0, pat.len() as int) =~= s.subrange(i, i + pat.len()));
        }
    }
    if pat.len() > 0 && occurs_at(s, pat, i) {
        assert(t.subrange(pat.len() as int, t.len() as int) =~= s.subrange(i + pat.len(), s.len() as int));
    } else {
        assert(t.subrange(1, t.len() as int) =~= s.subrange(i + 1, s.len() as int));
    }
}

/// `s` with each occurrence of `pat`, left to right and without overlap, replaced by `rep`.
pub fn replace(s: &Vec<char>, pat: &Vec<char>, rep: &Vec<char>) -> (r: Vec<char>)
    ensures
        r@ == replace_all(s@, pat@, rep@),
{
    let mut r: Vec<char> = Vec::new();
    let mut i: usize = 0;
    assert(s@.subrange(0, s@.len() as int) =~= s@);
    assert(r@ + s@ =~= s@);
    while i < s.len()
        invariant
            i <= s@.len(),
            r@ + replace_all(s@.subrange(i as int, s@.len() as int), pat@, rep@) == replace_all(s@, pat@, rep@),
        decreases s@.len() - i,
    {
        proof {
            lemma_replace_all_step(s@, pat@, rep@, i as int);
        }
        if pat.len() > 0 && matches_at(s, pat, i) {
            let mut k: usize = 0;
            let ghost r0 = r@;
            while k < rep.len()
                invariant
                    k <= rep@.len(),
                    r@ == r0 + rep@.subrange(0, k as int),
                decreases rep@.len() - k,
            {
                r.push(rep[k]);
                k += 1;
            }
            assert(rep@.subrange(0, rep@.len() as int) =~= rep@);
            assert(r0 + (rep@ + replace_all(s@.subrange(i + pat@.len(), s@.len() as int), pat@, rep@))
                =~= r@ + replace_all(s@.subrange(i + pat@.len(), s@.len() as int), pat@, rep@));
            i += pat.len();
        } else {
            let ghost r0 = r@;
            r.push(s[i]);
            assert(r0 + (seq![s@[i as int]] + replace_all(s@.subrange(i + 1, s@.len() as int), pat@, rep@))
                =~= r@ + replace_all(s@.subrange(i + 1, s@.len() as int), pat@, rep@));
            i += 1;
        }
    }
    assert(s@.subrange(i as int, s@.len() as int) =~= Seq::<char>::empty());
    assert(r@ + Seq::<char>::empty() =~= r@);
    r
}

/// `s` with `pat` replaced by the single glyph `glyph`.
fn replace_with_glyph(s: Vec<char>, pat: &str, glyph: char) -> (r: Vec<char>)
    ensures
        r@ == replace_all(s@, pat@, seq![glyph]),
{
    let p = chars_of(pat);
    let g: Vec<char> = vec![glyph];
    assert(g@ =~= seq![glyph]);
    replace(&s, &p, &g)
}

/// Rewrites chat shortcodes and image-description phrases into canonical glyphs.
pub fn normalize(s: &Vec<char>) -> (r: Vec<char>)
    ensures
        r@ == normalized(s@),
{
    let s = replace_with_glyph(s.clone(), ":black_large_square:", BLACK);
    let s = replace_with_glyph(s, ":white_large_square:", BLACK);
    let s = replace_with_glyph(s, ":large_green_square:", GREEN);
    let s = replace_with_glyph(s, ":large_orange_square:", GREEN);
    let s = replace_with_glyph(s, ":large_yellow_square:", YELLOW);
    let s = replace_with_glyph(s, ":large_blue_square:", YELLOW);
    let s = replace_with_glyph(s, "Black large square", BLACK);
    let s = replace_with_glyph(s, "Green square", GREEN);
    let s = replace_with_glyph(s, "Orange square", GREEN);
    let s = replace_with_glyph(s, "Yellow square", YELLOW);
    replace_with_glyph(s, "Blue square", YELLOW)
}

} // verus!
