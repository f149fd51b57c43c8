//! Splitting text into lines, and reading the puzzle number from a header line.
use vstd::prelude::*;

use crate::normalize::chars_of;

verus! {

/// The pieces of `s` between line feeds; `s` without a line feed is one piece.
pub open spec fn pieces(s: Seq<char>) -> Seq<Seq<char>>
    decreases s.len(),
{
    if s.len() == 0 {
        seq![Seq::<char>::empty()]
    } else {
        let p = pieces(s.drop_last());
        if s.last() == '\n' {
            p.push(Seq::<char>::empty())
        } else {
            p.update(p.len() - 1, p.last().push(s.last()))
        }
    }
}

/// A line that ended in a line feed loses one carriage return before it.
pub open spec fn strip_cr(l: Seq<char>) -> Seq<char> {
    if l.len() > 0 && l.last() == '\r' {
        l.drop_last()
    } else {
        l
    }
}

/// The lines of `s`: its pieces between line feeds, with the carriage return of
/// each line-feed line ending removed.
pub open spec fn lines_of(s: Seq<char>) -> Seq<Seq<char>> {
    let p = pieces(s);
    Seq::new(p.len(), |i: int| if i + 1 < p.len() { strip_cr(p[i]) } else { p[i] })
}

pub proof fn lemma_pieces_nonempty(s: Seq<char>)
    ensures
        pieces(s).len() >= 1,
    decreases s.len(),
{
    if s.len() > 0 {
        lemma_pieces_nonempty(s.drop_last());
    }
}

fn strip_cr_exec(l: Vec<char>) -> (r: Vec<char>)
    ensures
        r@ == strip_cr(l@),
{
    let mut l = l;
    if l.len() > 0 && l[l.len() - 1] == '\r' {
        l.pop();
    }
    l
}

/// The lines of `s`, in order.
pub fn split_lines(s: &Vec<char>) -> (r: Vec<Vec<char>>)
    ensures
        r@.len() == lines_of(s@).len(),
        forall|i: int| 0 <= i < r@.len() ==> #[trigger] r@[i]@ == lines_of(s@)[i],
{
    let mut out: Vec<Vec<char>> = Vec::new();
    let mut cur: Vec<char> = Vec::new();
    let mut i: usize = 0;
    assert(s@.subrange(0, 0) =~= Seq::<char>::empty());
    while i < s.len()
        invariant
            i <= s@.len(),
            out@.len() + 1 == pieces(s@.subrange(0, i as int)).len(),
            forall|k: int|
                0 <= k < out@.len() ==> #[trigger] out@[k]@ == strip_cr(pieces(s@.subrange(0, i as int))[k]),
            cur@ == pieces(s@.subrange(0, i as int)).last(),
        decreases s@.len() - i,
    {
        let ghost before = pieces(s@.subrange(0, i as int));
        assert(s@.subrange(0, i + 1).drop_last() =~= s@.subrange(0, i as int));
        if s[i] == '\n' {
            let line = strip_cr_exec(cur);
            out.push(line);
            cur = Vec::new();
        } else {
            cur.push(s[i]);
        }
        i += 1;
    }
    assert(s@.subrange(0, s@.len() as int) =~= s@);
    out.push(cur);
    proof {
        lemma_pieces_nonempty(s@);
    }
    assert forall|k: int| 0 <= k < out@.len() implies #[trigger] out@[k]@ == lines_of(s@)[k] by {}
    out
}

/// The value of a string of decimal digits.
pub open spec fn digits_value(s: Seq<char>) -> nat
    decreases s.len(),
{
    if s.len() == 0 {
        0
    } else {
        digits_value(s.drop_last()) * 10 + (s.last() as nat - '0' as nat) as nat
    }
}

pub open spec fn is_digit(c: char) -> bool {
    '0' <= c && c <= '9'
}

/// `t` without one leading `+`.
pub open spec fn strip_plus(t: Seq<char>) -> Seq<char> {
    if t.len() > 0 && t[0] == '+' {
        t.subrange(1, t.len() as int)
    } else {
        t
    }
}

/// The value of a non-empty string of decimal digits, where it fits a `u32`.
pub open spec fn decimal_u32(d: Seq<char>) -> Option<u32> {
    if d.len() > 0 && (forall|i: int| 0 <= i < d.len() ==> is_digit(#[trigger] d[i]))
        && digits_value(d) <= u32::MAX {
        Some(digits_value(d) as u32)
    } else {
        None
    }
}

/// A `u32` written in decimal: an optional `+`, then at least one digit, with
/// a value that fits.
pub open spec fn u32_of(t: Seq<char>) -> Option<u32> {
    decimal_u32(strip_plus(t))
}

/// What follows the first space of `s`, if it has one.
pub open spec fn after_space(s: Seq<char>) -> Option<Seq<char>>
    decreases s.len(),
{
    if s.len() == 0 {
        None
    } else if s[0] == ' ' {
        Some(s.subrange(1, s.len() as int))
    } else {
        after_space(s.subrange(1, s.len() as int))
    }
}

/// The start of `s` up to its first space.
pub open spec fn first_word(s: Seq<char>) -> Seq<char>
    decreases s.len(),
{
    if s.len() == 0 || s[0] == ' ' {
        Seq::<char>::empty()
    } else {
        seq![s[0]] + first_word(s.subrange(1, s.len() as int))
    }
}

/// The second of the space-separated fields of a line.
pub open spec fn second_field(s: Seq<char>) -> Option<Seq<char>> {
    match after_space(s) {
        Some(rest) => Some(first_word(rest)),
        None => None,
    }
}

/// The puzzle number that a header line gives: the line starts with `Wordle`
/// and its second space-separated field is a `u32`.
pub open spec fn header_number(line: Seq<char>) -> Option<u32> {
    let key = "Wordle"@;
    if line.len() >= key.len() && line.subrange(0, key.len() as int) == key {
        match second_field(line) {
            Some(t) => u32_of(t),
            None => None,
        }
    } else {
        None
    }
}

proof fn lemma_digits_value_prefix(s: Seq<char>, i: int)
    requires
        0 <= i <= s.len(),
    ensures
        digits_value(s.subrange(0, i)) <= digits_value(s),
    decreases s.len(),
{
    if i < s.len() {
        assert(s.drop_last().subrange(0, i) =~= s.subrange(0, i));
        lemma_digits_value_prefix(s.drop_last(), i);
    } else {
        assert(s.subrange(0, i) =~= s);
    }
}

/// The `u32` written in `t[from..to]`, as `u32_of` reads it.
fn parse_u32(t: &Vec<char>, from: usize, to: usize) -> (r: Option<u32>)
    requires
        from <= to <= t@.len(),
    ensures
        r == u32_of(t@.subrange(from as int, to as int)),
{
    let ghost s = t@.subrange(from as int, to as int);
    let mut a = from;
    if a < to && t[a] == '+' {
        a += 1;
    }
    let ghost d = t@.subrange(a as int, to as int);
    assert(d =~= strip_plus(s));
    if a == to {
        return None;
    }
    let mut v: u64 = 0;
    let mut i: usize = a;
    assert(t@.subrange(a as int, a as int) =~= Seq::<char>::empty());
    while i < to
        invariant
            a <= i <= to <= t@.len(),
            d == t@.subrange(a as int, to as int),
            d == strip_plus(t@.subrange(from as int, to as int)),
            v == digits_value(t@.subrange(a as int, i as int)),
            v <= u32::MAX,
            forall|k: int| a <= k < i ==> is_digit(#[trigger] t@[k]),
        decreases to - i,
    {
        let c = t[i];
        if !('0' <= c && c <= '9') {
            assert(!is_digit(d[i - a]));
            return None;
        }
        let ghost prev = t@.subrange(a as int, i as int);
        assert(t@.subrange(a as int, i + 1).drop_last() =~= prev);
        v = v * 10 + (c as u64 - '0' as u64);
        i += 1;
        if v > u32::MAX as u64 {
            proof {
                assert(d.subrange(0, i - a) =~= t@.subrange(a as int, i as int));
                if forall|k: int| 0 <= k < d.len() ==> is_digit(#[trigger] d[k]) {
                    lemma_digits_value_prefix(d, i - a);
                }
            }
            return None;
        }
    }
    assert(forall|k: int| 0 <= k < d.len() ==> is_digit(#[trigger] d[k]) <== is_digit(t@[k + a]));
    Some(v as u32)
}

proof fn lemma_after_space(s: Seq<char>, p: int)
    requires
        0 <= p <= s.len(),
        forall|k: int| 0 <= k < p ==> s[k] != ' ',
    ensures
        after_space(s) == after_space(s.subrange(p, s.len() as int)),
    decreases p,
{
    if p > 0 {
        let t = s.subrange(1, s.len() as int);
        assert(t.subrange(p - 1, t.len() as int) =~= s.subrange(p, s.len() as int));
        lemma_after_space(t, p - 1);
    } else {
        assert(s.subrange(0, s.len() as int) =~= s);
    }
}

proof fn lemma_first_word(s: Seq<char>, q: int)
    requires
        0 <= q <= s.len(),
        forall|k: int| 0 <= k < q ==> s[k] != ' ',
        q == s.len() || s[q] == ' ',
    ensures
        first_word(s) == s.subrange(0, q),
    decreases q,
{
    if q > 0 {
        let t = s.subrange(1, s.len() as int);
        lemma_first_word(t, q - 1);
        assert(seq![s[0]] + t.subrange(0, q - 1) =~= s.subrange(0, q));
    } else {
        assert(s.subrange(0, 0) =~= Seq::<char>::empty());
    }
}

/// The first position at or after `from` that holds a space, or the length.
fn find_space(s: &Vec<char>, from: usize) -> (r: usize)
    requires
        from <= s@.len(),
    ensures
        from <= r <= s@.len(),
        forall|k: int| from <= k < r ==> s@[k] != ' ',
        r == s@.len() || s@[r as int] == ' ',
{
    let mut i = from;
    while i < s.len() && s[i] != ' '
        invariant
            from <= i <= s@.len(),
            forall|k: int| from <= k < i ==> s@[k] != ' ',
        decreases s@.len() - i,
    {
        i += 1;
    }
    i
}

/// The puzzle number that `line` gives as a header, as `header_number` reads it.
pub fn header_number_of(line: &Vec<char>) -> (r: Option<u32>)
    ensures
        r == header_number(line@),
{
    let key = chars_of("Wordle");
    if line.len() < key.len() {
        return None;
    }
    let mut i: usize = 0;
    while i < key.len()
        invariant
            key@ == "Wordle"@,
            key@.len() <= line@.len(),
            i <= key@.len(),
            forall|k: int| 0 <= k < i ==> line@[k] == key@[k],
        decreases key@.len() - i,
    {
        if line[i] != key[i] {
            assert(line@.subrange(0, key@.len() as int)[i as int] != key@[i as int]);
            return None;
        }
        i += 1;
    }
    assert(line@.subrange(0, key@.len() as int) =~= key@);
    let p = find_space(line, 0);
    proof {
        lemma_after_space(line@, p as int);
    }
    if p == line.len() {
        assert(line@.subrange(p as int, line@.len() as int) =~= Seq::<char>::empty());
        return None;
    }
    let ghost rest = line@.subrange(p + 1, line@.len() as int);
    assert(line@.subrange(p as int, line@.len() as int).subrange(1, line@.len() - p) =~= rest);
    let q = find_space(line, p + 1);
    proof {
        lemma_first_word(rest, q - (p + 1));
        assert(rest.subrange(0, q - (p + 1)) =~= line@.subrange(p + 1, q as int));
    }
    parse_u32(line, p + 1, q)
}

} // verus!
