//! The parsed grid of guesses, and the parser that builds it from shared text.
use vstd::prelude::*;

use crate::annotate::{annotate, annotated, cells_view, kinds_view, rectangular};
use crate::glyph::{
    is_canonical, is_canonical_char, kind_of, WordleGuess, WordleGuessKind, WordleParseError,
};
use crate::normalize::{chars_of, normalize, normalized};
use crate::text::{header_number, header_number_of, lines_of, split_lines};

verus! {

/// A parsed puzzle: its number, if the text gave one, and its rows of
/// guesses, the last line of the text first.
pub struct WordleGrid {
    /// Optional puzzle number that the text may or may not hold.
    pub number: Option<u32>,
    pub guesses: Vec<Vec<WordleGuess>>,
}

impl View for WordleGrid {
    type V = (Option<u32>, Seq<Seq<WordleGuess>>);

    open spec fn view(&self) -> Self::V {
        (self.number, cells_view(self.guesses@))
    }
}

/// A line that becomes a row: non-empty, and all of it canonical glyphs.
pub open spec fn is_row_line(l: Seq<char>) -> bool {
    l.len() > 0 && forall|i: int| 0 <= i < l.len() ==> is_canonical(#[trigger] l[i])
}

/// The rows that `lines` give, in grid order: the last line first.
pub open spec fn rows_of(lines: Seq<Seq<char>>) -> Seq<Seq<char>>
    decreases lines.len(),
{
    if lines.len() == 0 {
        Seq::<Seq<char>>::empty()
    } else {
        let rest = rows_of(lines.drop_first());
        if is_row_line(lines[0]) {
            rest.push(lines[0])
        } else {
            rest
        }
    }
}

/// The puzzle number of the earliest header line that gives one. Lines are
/// read last to first and each header overwrites the one before.
pub open spec fn header_of(lines: Seq<Seq<char>>) -> Option<u32>
    decreases lines.len(),
{
    if lines.len() == 0 {
        None
    } else {
        match header_number(lines[0]) {
            Some(n) => Some(n),
            None => header_of(lines.drop_first()),
        }
    }
}

/// All rows are as wide as the first.
pub open spec fn uniform(rows: Seq<Seq<char>>) -> bool {
    forall|i: int| 0 <= i < rows.len() ==> #[trigger] rows[i].len() == rows[0].len()
}

/// The kind of each glyph of each row.
pub open spec fn kinds_of(rows: Seq<Seq<char>>) -> Seq<Seq<WordleGuessKind>> {
    Seq::new(rows.len(), |r: int| Seq::new(rows[r].len(), |c: int| kind_of(rows[r][c])))
}

/// What parsing `s` gives: the number and the annotated cells, or the error.
pub open spec fn parse_text(s: Seq<char>) -> Result<(Option<u32>, Seq<Seq<WordleGuess>>), WordleParseError> {
    let lines = lines_of(normalized(s));
    let rows = rows_of(lines);
    if rows.len() == 0 || !uniform(rows) {
        Err(WordleParseError::InvalidFormat)
    } else {
        Ok((header_of(lines), annotated(kinds_of(rows))))
    }
}

/// The view of a parse result.
pub open spec fn result_view(r: Result<WordleGrid, WordleParseError>) -> Result<
    (Option<u32>, Seq<Seq<WordleGuess>>),
    WordleParseError,
> {
    match r {
        Ok(g) => Ok(g@),
        Err(e) => Err(e),
    }
}

proof fn lemma_rows_of_step(lines: Seq<Seq<char>>, i: int)
    requires
        0 < i <= lines.len(),
    ensures
        rows_of(lines.subrange(i - 1, lines.len() as int)) == if is_row_line(lines[i - 1]) {
            rows_of(lines.subrange(i, lines.len() as int)).push(lines[i - 1])
        } else {
            rows_of(lines.subrange(i, lines.len() as int))
        },
        header_of(lines.subrange(i - 1, lines.len() as int)) == match header_number(lines[i - 1]) {
            Some(n) => Some(n),
            None => header_of(lines.subrange(i, lines.len() as int)),
        },
{
    assert(lines.subrange(i - 1, lines.len() as int).drop_first() =~= lines.subrange(i, lines.len() as int));
}

/// The rows that the lines from `i` on give are the first rows of all of them.
proof fn lemma_rows_of_prefix(lines: Seq<Seq<char>>, i: int)
    requires
        0 <= i <= lines.len(),
    ensures
        rows_of(lines.subrange(i, lines.len() as int)).len() <= rows_of(lines).len(),
        forall|j: int|
            0 <= j < rows_of(lines.subrange(i, lines.len() as int)).len() ==> #[trigger] rows_of(lines)[j]
                == rows_of(lines.subrange(i, lines.len() as int))[j],
    decreases i,
{
    if i == 0 {
        assert(lines.subrange(0, lines.len() as int) =~= lines);
    } else {
        lemma_rows_of_prefix(lines, i - 1);
        lemma_rows_of_step(lines, i);
    }
}

/// The kinds of the glyphs of a row line.
fn kinds_of_line(line: &Vec<char>) -> (r: Result<Vec<WordleGuessKind>, WordleParseError>)
    ensures
        is_row_line(line@) ==> (r matches Ok(v) && v@ == Seq::new(
            line@.len(),
            |c: int| kind_of(line@[c]),
        )),
{
    let mut v: Vec<WordleGuessKind> = Vec::new();
    let mut i: usize = 0;
    while i < line.len()
        invariant
            i <= line@.len(),
            v@ == Seq::new(i as nat, |c: int| kind_of(line@[c])),
        decreases line@.len() - i,
    {
        match WordleGuessKind::try_from(line[i]) {
            Ok(kind) => v.push(kind),
            Err(e) => return Err(e),
        }
        i += 1;
        assert(v@ =~= Seq::new(i as nat, |c: int| kind_of(line@[c])));
    }
    Ok(v)
}

/// Whether a line becomes a row.
fn is_row_line_exec(line: &Vec<char>) -> (r: bool)
    ensures
        r == is_row_line(line@),
{
    if line.len() == 0 {
        return false;
    }
    let mut i: usize = 0;
    while i < line.len()
        invariant
            i <= line@.len(),
            forall|k: int| 0 <= k < i ==> is_canonical(#[trigger] line@[k]),
        decreases line@.len() - i,
    {
        if !is_canonical_char(line[i]) {
            return false;
        }
        i += 1;
    }
    true
}

impl WordleGrid {
    /// Parses shared text into an annotated grid. Alternate glyph spellings are
    /// rewritten first; lines are then read last to first, lines that are not
    /// all glyphs are skipped, and rows of unequal width, or no row at all, are
    /// an `InvalidFormat`.
    pub fn parse(s: &str) -> (r: Result<WordleGrid, WordleParseError>)
        ensures
            result_view(r) == parse_text(s@),
    {
        let chars = chars_of(s);
        let norm = normalize(&chars);
        let lines = split_lines(&norm);
        let ghost lv = lines_of(norm@);
        let n = lines.len();
        let mut number: Option<u32> = None;
        let mut kinds: Vec<Vec<WordleGuessKind>> = Vec::new();
        let mut width: usize = 0;
        let mut i = n;
        assert(lv.subrange(n as int, n as int) =~= Seq::<Seq<char>>::empty());
        assert(kinds_of(Seq::<Seq<char>>::empty()) =~= kinds_view(kinds@));
        while i > 0
            invariant
                lv == lines_of(norm@),
                norm@ == normalized(s@),
                n == lines@.len(),
                n == lv.len(),
                forall|j: int| 0 <= j < n ==> #[trigger] lines@[j]@ == lv[j],
                i <= n,
                number == header_of(lv.subrange(i as int, n as int)),
                kinds_view(kinds@) == kinds_of(rows_of(lv.subrange(i as int, n as int))),
                uniform(rows_of(lv.subrange(i as int, n as int))),
                kinds@.len() > 0 ==> width == rows_of(lv.subrange(i as int, n as int))[0].len(),
            decreases i,
        {
            let ghost before = rows_of(lv.subrange(i as int, n as int));
            proof {
                lemma_rows_of_step(lv, i as int);
            }
            let line = &lines[i - 1];
            assert(line@ == lv[i - 1]);
            assert(kinds_of(before).len() == before.len());
            assert(kinds_view(kinds@).len() == kinds@.len());
            match header_number_of(line) {
                Some(h) => number = Some(h),
                None => {},
            }
            if is_row_line_exec(line) {
                if kinds.len() > 0 && line.len() != width {
                    proof {
                        lemma_rows_of_prefix(lv, i - 1);
                        let full = rows_of(lv);
                        let p = rows_of(lv.subrange(i - 1, n as int));
                        assert(p == before.push(lv[i - 1]));
                        assert(full[p.len() - 1] == p[p.len() - 1]);
                        assert(full[0] == p[0]);
                        assert(full[p.len() - 1].len() != full[0].len());
                    }
                    return Err(WordleParseError::InvalidFormat);
                }
                let ghost old_kinds = kinds@;
                match kinds_of_line(line) {
                    Ok(v) => {
                        width = line.len();
                        kinds.push(v);
                    },
                    Err(e) => return Err(e),
                }
                let ghost after = rows_of(lv.subrange(i - 1, n as int));
                assert(after == before.push(lv[i - 1]));
                assert(kinds@ == old_kinds.push(kinds@.last()));
                assert(kinds_view(kinds@) =~= kinds_of(after)) by {
                    assert forall|r: int| 0 <= r < after.len() implies #[trigger] kinds_view(kinds@)[r]
                        == kinds_of(after)[r] by {
                        if r < before.len() {
                            assert(kinds_view(kinds@)[r] == kinds_of(before)[r]);
                        }
                        assert(kinds_view(kinds@)[r] =~= kinds_of(after)[r]);
                    }
                }
            }
            i -= 1;
        }
        assert(lv.subrange(0, n as int) =~= lv);
        if kinds.len() == 0 {
            return Err(WordleParseError::InvalidFormat);
        }
        proof {
            let rows = rows_of(lv);
            assert forall|r: int| 0 <= r < kinds_view(kinds@).len() implies #[trigger] kinds_view(kinds@)[r].len()
                == kinds_view(kinds@)[0].len() by {
                assert(rows[r].len() == rows[0].len());
            }
        }
        let guesses = annotate(&kinds);
        Ok(WordleGrid { number, guesses })
    }

    /// Returns the number of rows in the puzzle grid.
    pub fn rows(&self) -> (r: usize)
        ensures
            r == self.guesses@.len(),
    {
        self.guesses.len()
    }

    /// Returns the number of columns in the puzzle grid: the width of its first row.
    pub fn columns(&self) -> (r: usize)
        ensures
            r == if self.guesses@.len() == 0 { 0 } else { self.guesses@[0]@.len() },
    {
        if self.guesses.len() == 0 {
            0
        } else {
            self.guesses[0].len()
        }
    }
}

impl core::str::FromStr for WordleGrid {
    type Err = WordleParseError;

    /// Parses shared text into an annotated grid, as `parse` does.
    fn from_str(s: &str) -> (r: Result<WordleGrid, WordleParseError>)
        ensures
            result_view(r) == parse_text(s@),
    {
        WordleGrid::parse(s)
    }
}

} // verus!
