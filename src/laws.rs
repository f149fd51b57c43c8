//! Properties that hold of every parse and every traversal.
use vstd::prelude::*;

use crate::annotate::{annotated, depth, is_wrong, latest_row_wrong, rectangular, shallowest, streak};
use crate::glyph::{is_canonical, WordleGuessKind, WordleParseError};
use crate::grid::{is_row_line, parse_text, result_view, rows_of, uniform, WordleGrid};
use crate::normalize::{normalized, occurs_at, replace_all};
use crate::snake::{even_width, snake_col, snake_row};
use crate::text::{lines_of, pieces};

verus! {

proof fn lemma_rows_of_holds_row_lines(lines: Seq<Seq<char>>, i: int)
    requires
        0 <= i < lines.len(),
        is_row_line(lines[i]),
    ensures
        rows_of(lines).contains(lines[i]),
    decreases lines.len(),
{
    let rest = rows_of(lines.drop_first());
    if i > 0 {
        lemma_rows_of_holds_row_lines(lines.drop_first(), i - 1);
        let k = choose|k: int| 0 <= k < rest.len() && rest[k] == lines[i];
        if is_row_line(lines[0]) {
            assert(rest.push(lines[0])[k] == lines[i]);
        }
    } else {
        assert(rest.push(lines[0])[rest.len() as int] == lines[0]);
    }
}

proof fn lemma_rows_of_empty(lines: Seq<Seq<char>>)
    requires
        forall|i: int| 0 <= i < lines.len() ==> !is_row_line(#[trigger] lines[i]),
    ensures
        rows_of(lines).len() == 0,
    decreases lines.len(),
{
    if lines.len() > 0 {
        assert(forall|i: int| 0 <= i < lines.len() - 1 ==> lines.drop_first()[i] == lines[i + 1]);
        lemma_rows_of_empty(lines.drop_first());
    }
}

/// Two lines made only of glyphs, with different numbers of glyphs, make the
/// whole parse an `InvalidFormat`.
pub proof fn lemma_ragged_rows_rejected(s: Seq<char>, i: int, j: int)
    requires
        0 <= i < lines_of(normalized(s)).len(),
        0 <= j < lines_of(normalized(s)).len(),
        is_row_line(lines_of(normalized(s))[i]),
        is_row_line(lines_of(normalized(s))[j]),
        lines_of(normalized(s))[i].len() != lines_of(normalized(s))[j].len(),
    ensures
        parse_text(s) == Err::<(Option<u32>, Seq<Seq<crate::glyph::WordleGuess>>), WordleParseError>(
            WordleParseError::InvalidFormat,
        ),
{
    let lines = lines_of(normalized(s));
    let rows = rows_of(lines);
    lemma_rows_of_holds_row_lines(lines, i);
    lemma_rows_of_holds_row_lines(lines, j);
    let a = choose|a: int| 0 <= a < rows.len() && rows[a] == lines[i];
    let b = choose|b: int| 0 <= b < rows.len() && rows[b] == lines[j];
    if uniform(rows) {
        assert(rows[a].len() == rows[0].len());
        assert(rows[b].len() == rows[0].len());
    }
}

/// Text in which no line is made only of glyphs is an `InvalidFormat`.
pub proof fn lemma_no_rows_rejected(s: Seq<char>)
    requires
        forall|i: int| 0 <= i < lines_of(normalized(s)).len() ==> !is_row_line(#[trigger] lines_of(normalized(s))[i]),
    ensures
        parse_text(s) == Err::<(Option<u32>, Seq<Seq<crate::glyph::WordleGuess>>), WordleParseError>(
            WordleParseError::InvalidFormat,
        ),
{
    lemma_rows_of_empty(lines_of(normalized(s)));
}

/// Every row of a parsed grid is as wide as the first.
pub proof fn lemma_parsed_rows_even(s: Seq<char>)
    requires
        parse_text(s) is Ok,
    ensures
        parse_text(s) matches Ok((_, cells)) && even_width(cells),
{
    let rows = rows_of(lines_of(normalized(s)));
    let k = crate::grid::kinds_of(rows);
    let cells = annotated(k);
    assert forall|r: int| 0 <= r < cells.len() implies #[trigger] cells[r].len() == crate::snake::width(cells) by {
        assert(rows[r].len() == rows[0].len());
    }
}

/// Text with its alternate spellings already rewritten parses as the text itself.
pub proof fn lemma_parse_normalized(s: Seq<char>)
    ensures
        parse_text(normalized(s)) == parse_text(s),
{
    crate::normalize::lemma_normalized_idempotent(s);
}

/// Parsing the same text twice gives equal grids, or the same error.
pub proof fn lemma_parse_deterministic(
    s: Seq<char>,
    a: Result<WordleGrid, WordleParseError>,
    b: Result<WordleGrid, WordleParseError>,
)
    requires
        result_view(a) == parse_text(s),
        result_view(b) == parse_text(s),
    ensures
        result_view(a) == result_view(b),
{
}

/// In a column whose first correct or in-word cell is at row `f`, the wrong
/// cells above `f` are supports and the cells below `f` are not.
pub proof fn lemma_support_above_first_hit(k: Seq<Seq<WordleGuessKind>>, c: int, f: int)
    requires
        rectangular(k),
        0 <= c < k[0].len(),
        0 <= f < k.len(),
        !is_wrong(k[f][c]),
        forall|j: int| 0 <= j < f ==> is_wrong(#[trigger] k[j][c]),
    ensures
        forall|r: int| 0 <= r <= f ==> !(#[trigger] annotated(k)[r][c]).support,
        forall|r: int| f < r < k.len() && is_wrong(k[r][c]) ==> (#[trigger] annotated(k)[r][c]).support,
{
    assert forall|r: int| 0 <= r <= f implies !(#[trigger] annotated(k)[r][c]).support by {
        assert(k[r].len() == k[0].len());
    }
    assert forall|r: int| f < r < k.len() && is_wrong(k[r][c]) implies (#[trigger] annotated(k)[r][c]).support by {
        assert(k[r].len() == k[0].len());
        assert(!is_wrong(k[f][c]));
    }
}

proof fn lemma_streak_cells_wrong(k: Seq<Seq<WordleGuessKind>>, c: int, i: int, r: int)
    requires
        0 <= i <= r < i + streak(k, c, i),
    ensures
        is_wrong(k[r][c]),
    decreases k.len() - i,
{
    if i < k.len() && is_wrong(k[i][c]) && r > i {
        lemma_streak_cells_wrong(k, c, i + 1, r);
    }
}

spec fn least_of_first(k: Seq<Seq<WordleGuessKind>>, c: int, n: int) -> bool {
    forall|c2: int| 0 <= c2 < n ==> depth(k, c) <= #[trigger] depth(k, c2)
}

proof fn lemma_some_column_shallowest(k: Seq<Seq<WordleGuessKind>>, n: int)
    requires
        rectangular(k),
        0 < n <= k[0].len(),
    ensures
        exists|c: int| 0 <= c < n && #[trigger] least_of_first(k, c, n),
    decreases n,
{
    if n > 1 {
        lemma_some_column_shallowest(k, n - 1);
        let c = choose|c: int| 0 <= c < n - 1 && #[trigger] least_of_first(k, c, n - 1);
        if depth(k, n - 1) < depth(k, c) {
            assert(least_of_first(k, n - 1, n));
        } else {
            assert(least_of_first(k, c, n));
        }
    } else {
        assert(least_of_first(k, 0, 1));
    }
}

/// Toppers are wrong cells, in the wrong streak that a shallowest column has
/// from the most recent guess, row 0. There are none when that guess has a
/// correct or in-word cell; when it is all wrong, some cell of it is a topper.
pub proof fn lemma_toppers(k: Seq<Seq<WordleGuessKind>>)
    requires
        rectangular(k),
        k[0].len() > 0,
    ensures
        forall|r: int, c: int|
            0 <= r < k.len() && 0 <= c < k[0].len() && (#[trigger] annotated(k)[r][c]).topper ==> {
                &&& is_wrong(k[r][c])
                &&& shallowest(k, c)
                &&& r < depth(k, c)
            },
        !latest_row_wrong(k) ==> forall|r: int, c: int|
            0 <= r < k.len() && 0 <= c < k[0].len() ==> !(#[trigger] annotated(k)[r][c]).topper,
        latest_row_wrong(k) ==> exists|c: int| 0 <= c < k[0].len() && (#[trigger] annotated(k)[0][c]).topper,
{
    assert forall|r: int, c: int|
        0 <= r < k.len() && 0 <= c < k[0].len() && (#[trigger] annotated(k)[r][c]).topper implies {
            &&& is_wrong(k[r][c])
            &&& shallowest(k, c)
            &&& r < depth(k, c)
        } by {
        assert(k[r].len() == k[0].len());
        lemma_streak_cells_wrong(k, c, 0, r);
    }
    assert forall|r: int, c: int| 0 <= r < k.len() && 0 <= c < k[0].len() && !latest_row_wrong(k) implies !(
    #[trigger] annotated(k)[r][c]).topper by {
        assert(k[r].len() == k[0].len());
    }
    if latest_row_wrong(k) {
        lemma_some_column_shallowest(k, k[0].len() as int);
        let c = choose|c: int| 0 <= c < k[0].len() && #[trigger] least_of_first(k, c, k[0].len() as int);
        assert(shallowest(k, c));
        assert(is_wrong(k[0][c]));
        assert(streak(k, c, 0) >= 1);
        assert(annotated(k)[0][c].topper);
    }
}

/// The position of the `i`-th step, as a pair.
pub open spec fn snake_pos(i: int, cols: int) -> (int, int) {
    (snake_row(i, cols), snake_col(i, cols))
}

/// Some step of the order over `rows` by `cols` lands on row `r`, column `c`.
pub open spec fn visited(r: int, c: int, rows: int, cols: int) -> bool {
    exists|i: int| 0 <= i < rows * cols && #[trigger] snake_pos(i, cols) == (r, c)
}

proof fn lemma_snake_step(i: int, cols: int)
    requires
        0 <= i,
        0 < cols,
    ensures
        i == snake_row(i, cols) * cols + i % cols,
        0 <= i % cols < cols,
        0 <= snake_col(i, cols) < cols,
        0 <= snake_row(i, cols),
{
    vstd::arithmetic::div_mod::lemma_fundamental_div_mod(i, cols);
    vstd::arithmetic::div_mod::lemma_mod_bound(i, cols);
    assert(i / cols >= 0) by (nonlinear_arith)
        requires
            0 <= i,
            0 < cols,
    ;
    assert(i == cols * (i / cols) + i % cols);
    assert(cols * (i / cols) == (i / cols) * cols) by (nonlinear_arith);
}

/// The serpentine order over `rows` by `cols` visits each cell exactly once
/// in its `rows * cols` steps.
pub proof fn lemma_snake_visits_each_cell_once(rows: int, cols: int)
    requires
        0 < rows,
        0 < cols,
    ensures
        forall|i: int|
            0 <= i < rows * cols ==> 0 <= #[trigger] snake_pos(i, cols).0 < rows && 0 <= snake_pos(i, cols).1 < cols,
        forall|i: int, j: int|
            0 <= i < j < rows * cols ==> #[trigger] snake_pos(i, cols) != #[trigger] snake_pos(j, cols),
        forall|r: int, c: int| 0 <= r < rows && 0 <= c < cols ==> #[trigger] visited(r, c, rows, cols),
{
    assert forall|i: int| 0 <= i < rows * cols implies 0 <= #[trigger] snake_pos(i, cols).0 < rows && 0
        <= snake_pos(i, cols).1 < cols by {
        lemma_snake_step(i, cols);
        let q = i / cols;
        assert(q < rows) by (nonlinear_arith)
            requires
                i == q * cols + i % cols,
                0 <= i % cols,
                i < rows * cols,
                0 < cols,
        ;
    }
    assert forall|i: int, j: int| 0 <= i < j < rows * cols implies #[trigger] snake_pos(i, cols) != #[trigger] snake_pos(j, cols) by {
        lemma_snake_step(i, cols);
        lemma_snake_step(j, cols);
        if snake_pos(i, cols) == snake_pos(j, cols) {
            let q = i / cols;
            assert(i % cols == j % cols);
            assert(i == j);
        }
    }
    assert forall|r: int, c: int| 0 <= r < rows && 0 <= c < cols implies #[trigger] visited(r, c, rows, cols) by {
        let m = if r % 2 == 0 { c } else { cols - 1 - c };
        let i = r * cols + m;
        assert(0 <= i < rows * cols) by (nonlinear_arith)
            requires
                i == r * cols + m,
                0 <= m < cols,
                0 <= r < rows,
        ;
        vstd::arithmetic::div_mod::lemma_fundamental_div_mod_converse(i, cols, r, m);
        assert(snake_pos(i, cols) == (r, c));
    }
}

/// `rows` joined by line feeds.
pub open spec fn joined(rows: Seq<Seq<char>>) -> Seq<char>
    decreases rows.len(),
{
    if rows.len() == 0 {
        Seq::<char>::empty()
    } else if rows.len() == 1 {
        rows[0]
    } else {
        joined(rows.drop_last()) + seq!['\n'] + rows.last()
    }
}

/// Each of `rows` is `width` canonical glyphs.
pub open spec fn glyph_rows(rows: Seq<Seq<char>>, width: nat) -> bool {
    forall|r: int|
        0 <= r < rows.len() ==> #[trigger] rows[r].len() == width && forall|c: int|
            0 <= c < width ==> is_canonical(#[trigger] rows[r][c])
}

proof fn lemma_replace_absent(s: Seq<char>, pat: Seq<char>, rep: Seq<char>)
    requires
        pat.len() > 0,
        forall|i: int| 0 <= i < s.len() ==> s[i] != pat[0],
    ensures
        replace_all(s, pat, rep) == s,
    decreases s.len(),
{
    if s.len() > 0 {
        if occurs_at(s, pat, 0) {
            assert(s.subrange(0, pat.len() as int)[0] == s[0]);
        }
        let t = s.subrange(1, s.len() as int);
        assert(forall|i: int| 0 <= i < t.len() ==> t[i] == s[i + 1]);
        lemma_replace_absent(t, pat, rep);
        assert(seq![s[0]] + t =~= s);
    }
}

proof fn lemma_joined_chars(rows: Seq<Seq<char>>, width: nat)
    requires
        glyph_rows(rows, width),
    ensures
        forall|i: int| 0 <= i < joined(rows).len() ==> is_canonical(#[trigger] joined(rows)[i]) || joined(rows)[i] == '\n',
    decreases rows.len(),
{
    if rows.len() > 1 {
        let front = rows.drop_last();
        assert forall|r: int| 0 <= r < front.len() implies #[trigger] front[r].len() == width && forall|c: int|
            0 <= c < width ==> is_canonical(#[trigger] front[r][c]) by {
            assert(front[r] == rows[r]);
        }
        lemma_joined_chars(front, width);
        let j = joined(rows);
        let a = joined(front);
        let l = rows.last();
        assert(rows[rows.len() - 1] == l);
        assert forall|i: int| 0 <= i < j.len() implies is_canonical(#[trigger] j[i]) || j[i] == '\n' by {
            if i < a.len() {
                assert(j[i] == a[i]);
            } else if i > a.len() {
                assert(j[i] == l[i - a.len() - 1]);
            }
        }
    } else if rows.len() == 1 {
        assert(rows[0].len() == width);
    }
}

proof fn lemma_normalized_glyph_text(s: Seq<char>)
    requires
        forall|i: int| 0 <= i < s.len() ==> is_canonical(#[trigger] s[i]) || s[i] == '\n',
    ensures
        normalized(s) == s,
{
    reveal_strlit(":black_large_square:");
    reveal_strlit(":white_large_square:");
    reveal_strlit(":large_green_square:");
    reveal_strlit(":large_orange_square:");
    reveal_strlit(":large_yellow_square:");
    reveal_strlit(":large_blue_square:");
    reveal_strlit("Black large square");
    reveal_strlit("Green square");
    reveal_strlit("Orange square");
    reveal_strlit("Yellow square");
    reveal_strlit("Blue square");
    assert forall|i: int| 0 <= i < s.len() implies s[i] != ':' && s[i] != 'B' && s[i] != 'G' && s[i] != 'O'
        && s[i] != 'Y' by {
        assert(is_canonical(s[i]) || s[i] == '\n');
    }
    lemma_replace_absent(s, ":black_large_square:"@, seq!['⬛']);
    lemma_replace_absent(s, ":white_large_square:"@, seq!['⬛']);
    lemma_replace_absent(s, ":large_green_square:"@, seq!['🟩']);
    lemma_replace_absent(s, ":large_orange_square:"@, seq!['🟩']);
    lemma_replace_absent(s, ":large_yellow_square:"@, seq!['🟨']);
    lemma_replace_absent(s, ":large_blue_square:"@, seq!['🟨']);
    lemma_replace_absent(s, "Black large square"@, seq!['⬛']);
    lemma_replace_absent(s, "Green square"@, seq!['🟩']);
    lemma_replace_absent(s, "Orange square"@, seq!['🟩']);
    lemma_replace_absent(s, "Yellow square"@, seq!['🟨']);
    lemma_replace_absent(s, "Blue square"@, seq!['🟨']);
}

proof fn lemma_pieces_extend(a: Seq<char>, b: Seq<char>)
    requires
        forall|i: int| 0 <= i < b.len() ==> b[i] != '\n',
    ensures
        pieces(a + b) == pieces(a).update(pieces(a).len() - 1, pieces(a).last() + b),
        pieces(a).len() >= 1,
    decreases b.len(),
{
    crate::text::lemma_pieces_nonempty(a);
    if b.len() == 0 {
        assert(a + b =~= a);
        assert(pieces(a).last() + b =~= pieces(a).last());
        assert(pieces(a).update(pieces(a).len() - 1, pieces(a).last()) =~= pieces(a));
    } else {
        let b0 = b.drop_last();
        lemma_pieces_extend(a, b0);
        assert((a + b).drop_last() =~= a + b0);
        assert((a + b).last() == b.last());
        assert((pieces(a).last() + b0).push(b.last()) =~= pieces(a).last() + b);
        assert(pieces(a + b0).update(pieces(a).len() - 1, (pieces(a).last() + b0).push(b.last()))
            =~= pieces(a).update(pieces(a).len() - 1, pieces(a).last() + b));
    }
}

proof fn lemma_pieces_joined(rows: Seq<Seq<char>>, width: nat)
    requires
        rows.len() > 0,
        glyph_rows(rows, width),
    ensures
        pieces(joined(rows)) == rows,
    decreases rows.len(),
{
    if rows.len() == 1 {
        assert(rows[0].len() == width);
        assert forall|i: int| 0 <= i < rows[0].len() implies rows[0][i] != '\n' by {
            assert(is_canonical(rows[0][i]));
        }
        lemma_pieces_extend(Seq::<char>::empty(), rows[0]);
        assert(Seq::<char>::empty() + rows[0] =~= rows[0]);
        assert(Seq::<char>::empty() + rows[0] =~= rows[0]);
        assert(pieces(rows[0]) =~= rows);
    } else {
        let front = rows.drop_last();
        assert forall|r: int| 0 <= r < front.len() implies #[trigger] front[r].len() == width && forall|c: int|
            0 <= c < width ==> is_canonical(#[trigger] front[r][c]) by {
            assert(front[r] == rows[r]);
        }
        lemma_pieces_joined(front, width);
        let a = joined(front) + seq!['\n'];
        let l = rows.last();
        assert(rows[rows.len() - 1] == l);
        assert forall|i: int| 0 <= i < l.len() implies l[i] != '\n' by {
            assert(is_canonical(l[i]));
        }
        assert(a.drop_last() =~= joined(front));
        assert(pieces(a) == front.push(Seq::<char>::empty()));
        lemma_pieces_extend(a, l);
        assert(Seq::<char>::empty() + l =~= l);
        assert(pieces(joined(rows)) =~= rows);
    }
}

proof fn lemma_rows_of_glyph_rows(lines: Seq<Seq<char>>, width: nat)
    requires
        width > 0,
        glyph_rows(lines, width),
    ensures
        rows_of(lines).len() == lines.len(),
        forall|j: int| 0 <= j < lines.len() ==> (#[trigger] rows_of(lines)[j]).len() == width,
    decreases lines.len(),
{
    if lines.len() > 0 {
        let rest = lines.drop_first();
        assert forall|r: int| 0 <= r < rest.len() implies #[trigger] rest[r].len() == width && forall|c: int|
            0 <= c < width ==> is_canonical(#[trigger] rest[r][c]) by {
            assert(rest[r] == lines[r + 1]);
        }
        lemma_rows_of_glyph_rows(rest, width);
        assert(lines[0].len() == width);
        assert(is_row_line(lines[0]));
    }
}

/// `rows.len()` lines of `width` canonical glyphs each, joined by line feeds,
/// parse to a grid of `rows.len()` rows of `width` cells.
pub proof fn lemma_glyph_text_parses(rows: Seq<Seq<char>>, width: nat)
    requires
        rows.len() > 0,
        width > 0,
        glyph_rows(rows, width),
    ensures
        parse_text(joined(rows)) matches Ok((_, cells)) && cells.len() == rows.len() && forall|r: int|
            0 <= r < cells.len() ==> (#[trigger] cells[r]).len() == width,
{
    let s = joined(rows);
    lemma_joined_chars(rows, width);
    lemma_normalized_glyph_text(s);
    lemma_pieces_joined(rows, width);
    assert forall|i: int| 0 <= i < rows.len() implies #[trigger] crate::text::strip_cr(rows[i]) == rows[i] by {
        assert(rows[i].len() == width);
        assert(is_canonical(rows[i][width - 1]));
    }
    assert(lines_of(s) =~= rows);
    lemma_rows_of_glyph_rows(rows, width);
    let rr = rows_of(rows);
    assert(uniform(rr)) by {
        assert forall|i: int| 0 <= i < rr.len() implies #[trigger] rr[i].len() == rr[0].len() by {
            assert(rr[i].len() == width);
            assert(rr[0].len() == width);
        }
    }
    let cells = annotated(crate::grid::kinds_of(rr));
    assert forall|r: int| 0 <= r < cells.len() implies (#[trigger] cells[r]).len() == width by {
        assert(rr[r].len() == width);
    }
}

} // verus!
