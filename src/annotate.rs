//! The two annotation passes over a grid of kinds: gravity support, and the
//! toppers that keep a losing final row visible.
use vstd::prelude::*;

use crate::glyph::{WordleGuess, WordleGuessKind};

verus! {

/// Every row of `k` is as wide as the first, and there is at least one row.
pub open spec fn rectangular(k: Seq<Seq<WordleGuessKind>>) -> bool {
    k.len() > 0 && forall|r: int| 0 <= r < k.len() ==> #[trigger] k[r].len() == k[0].len()
}

pub open spec fn is_wrong(k: WordleGuessKind) -> bool {
    k == WordleGuessKind::NotInWord
}

/// A wrong cell with a correct or in-word cell below it in its column.
pub open spec fn supported(k: Seq<Seq<WordleGuessKind>>, r: int, c: int) -> bool {
    is_wrong(k[r][c]) && exists|j: int| 0 <= j < r && !is_wrong(#[trigger] k[j][c])
}

/// The number of consecutive wrong cells in column `c`, counted up from row `i`.
pub open spec fn streak(k: Seq<Seq<WordleGuessKind>>, c: int, i: int) -> nat
    decreases k.len() - i,
{
    if i < 0 || i >= k.len() {
        0
    } else if is_wrong(k[i][c]) {
        streak(k, c, i + 1) + 1
    } else {
        0
    }
}

proof fn lemma_streak_bound(k: Seq<Seq<WordleGuessKind>>, c: int, i: int)
    requires
        0 <= i <= k.len(),
    ensures
        streak(k, c, i) <= k.len() - i,
    decreases k.len() - i,
{
    if i < k.len() {
        lemma_streak_bound(k, c, i + 1);
    }
}

/// The wrong-streak depth of column `c`: its consecutive wrong cells counted
/// from the most recent guess, row 0, toward the earlier ones.
pub open spec fn depth(k: Seq<Seq<WordleGuessKind>>, c: int) -> nat {
    streak(k, c, 0)
}

/// Every cell of the most recent guess, row 0, is wrong.
pub open spec fn latest_row_wrong(k: Seq<Seq<WordleGuessKind>>) -> bool {
    forall|c: int| 0 <= c < k[0].len() ==> is_wrong(#[trigger] k[0][c])
}

/// No column has a smaller depth than column `c`.
pub open spec fn shallowest(k: Seq<Seq<WordleGuessKind>>, c: int) -> bool {
    forall|c2: int| 0 <= c2 < k[0].len() ==> depth(k, c) <= #[trigger] depth(k, c2)
}

/// A cell of the wrong streak of a shallowest column, when the most recent
/// guess is all wrong.
pub open spec fn topped(k: Seq<Seq<WordleGuessKind>>, r: int, c: int) -> bool {
    latest_row_wrong(k) && shallowest(k, c) && r < depth(k, c)
}

/// The annotated cell at row `r`, column `c`.
pub open spec fn cell(k: Seq<Seq<WordleGuessKind>>, r: int, c: int) -> WordleGuess {
    WordleGuess { support: supported(k, r, c), topper: topped(k, r, c), kind: k[r][c] }
}

/// The grid of kinds with both annotations applied.
pub open spec fn annotated(k: Seq<Seq<WordleGuessKind>>) -> Seq<Seq<WordleGuess>> {
    Seq::new(k.len(), |r: int| Seq::new(k[r].len(), |c: int| cell(k, r, c)))
}

/// The view of a grid of cells.
pub open spec fn cells_view(g: Seq<Vec<WordleGuess>>) -> Seq<Seq<WordleGuess>> {
    Seq::new(g.len(), |r: int| g[r]@)
}

/// The view of a grid of kinds.
pub open spec fn kinds_view(g: Seq<Vec<WordleGuessKind>>) -> Seq<Seq<WordleGuessKind>> {
    Seq::new(g.len(), |r: int| g[r]@)
}

/// The depth of column `c`.
fn wrong_streak(k: &Vec<Vec<WordleGuessKind>>, c: usize) -> (d: usize)
    requires
        rectangular(kinds_view(k@)),
        c < k@[0]@.len(),
    ensures
        d == depth(kinds_view(k@), c as int),
        d <= k@.len(),
{
    let ghost kv = kinds_view(k@);
    let mut row: usize = 0;
    while row < k.len() && k[row][c] == WordleGuessKind::NotInWord
        invariant
            kv == kinds_view(k@),
            rectangular(kv),
            c < kv[0].len(),
            row <= k@.len(),
            depth(kv, c as int) == row + streak(kv, c as int, row as int),
        decreases k@.len() - row,
    {
        assert(kv[row as int] == k@[row as int]@);
        row += 1;
    }
    if row < k.len() {
        assert(kv[row as int] == k@[row as int]@);
    }
    proof {
        lemma_streak_bound(kv, c as int, row as int);
    }
    row
}

/// The grid of kinds with the support and topper annotations applied.
pub fn annotate(k: &Vec<Vec<WordleGuessKind>>) -> (g: Vec<Vec<WordleGuess>>)
    requires
        rectangular(kinds_view(k@)),
    ensures
        cells_view(g@) == annotated(kinds_view(k@)),
{
    let ghost kv = kinds_view(k@);
    let rows = k.len();
    let cols = k[0].len();
    assert(kv[0] == k@[0]@);

    let mut latest_wrong = true;
    let mut c: usize = 0;
    while c < cols
        invariant
            kv == kinds_view(k@),
            rectangular(kv),
            rows == kv.len(),
            cols == kv[0].len(),
            kv[0] == k@[0]@,
            c <= cols,
            latest_wrong == forall|c2: int| 0 <= c2 < c ==> is_wrong(#[trigger] kv[0][c2]),
        decreases cols - c,
    {
        if k[0][c] != WordleGuessKind::NotInWord {
            latest_wrong = false;
        }
        c += 1;
    }

    let mut depths: Vec<usize> = Vec::new();
    let mut least: usize = 0;
    let ghost mut at: int = 0;
    c = 0;
    while c < cols
        invariant
            kv == kinds_view(k@),
            rectangular(kv),
            rows == kv.len(),
            cols == kv[0].len(),
            c <= cols,
            depths@.len() == c,
            forall|j: int| 0 <= j < c ==> #[trigger] depths@[j] == depth(kv, j),
            forall|j: int| 0 <= j < c ==> #[trigger] depths@[j] <= rows,
            c > 0 ==> 0 <= at < c && depths@[at] == least,
            forall|j: int| 0 <= j < c ==> least <= #[trigger] depths@[j],
        decreases cols - c,
    {
        let d = wrong_streak(k, c);
        if c == 0 || d < least {
            least = d;
            proof {
                at = c as int;
            }
        }
        depths.push(d);
        c += 1;
    }
    assert forall|j: int| 0 <= j < cols implies (shallowest(kv, j) <==> #[trigger] depths@[j] == least) by {
        if shallowest(kv, j) {
            assert(depth(kv, j) <= depth(kv, at));
        }
        if depths@[j] == least {
            assert forall|c2: int| 0 <= c2 < kv[0].len() implies depth(kv, j) <= #[trigger] depth(kv, c2) by {
                assert(least <= depths@[c2]);
            }
        }
    }

    let mut seen: Vec<bool> = Vec::new();
    c = 0;
    while c < cols
        invariant
            c <= cols,
            seen@.len() == c,
            forall|j: int| 0 <= j < c ==> !#[trigger] seen@[j],
        decreases cols - c,
    {
        seen.push(false);
        c += 1;
    }

    let mut g: Vec<Vec<WordleGuess>> = Vec::new();
    let mut r: usize = 0;
    while r < rows
        invariant
            kv == kinds_view(k@),
            rectangular(kv),
            rows == kv.len(),
            cols == kv[0].len(),
            r <= rows,
            depths@.len() == cols,
            seen@.len() == cols,
            forall|j: int| 0 <= j < cols ==> #[trigger] depths@[j] == depth(kv, j),
            forall|j: int| 0 <= j < cols ==> #[trigger] depths@[j] <= rows,
            forall|j: int| 0 <= j < cols ==> (shallowest(kv, j) <==> #[trigger] depths@[j] == least),
            latest_wrong == latest_row_wrong(kv),
            forall|j: int|
                0 <= j < cols ==> (#[trigger] seen@[j] <==> exists|i: int| 0 <= i < r && !is_wrong(#[trigger] kv[i][j])),
            g@.len() == r,
            forall|i: int| 0 <= i < r ==> #[trigger] g@[i]@ == annotated(kv)[i],
        decreases rows - r,
    {
        assert(kv[r as int] == k@[r as int]@);
        let mut row: Vec<WordleGuess> = Vec::new();
        c = 0;
        while c < cols
            invariant
                kv == kinds_view(k@),
                rectangular(kv),
                rows == kv.len(),
                cols == kv[0].len(),
                r < rows,
                kv[r as int] == k@[r as int]@,
                c <= cols,
                depths@.len() == cols,
                seen@.len() == cols,
                forall|j: int| 0 <= j < cols ==> #[trigger] depths@[j] == depth(kv, j),
                forall|j: int| 0 <= j < cols ==> #[trigger] depths@[j] <= rows,
                forall|j: int| 0 <= j < cols ==> (shallowest(kv, j) <==> #[trigger] depths@[j] == least),
                latest_wrong == latest_row_wrong(kv),
                forall|j: int|
                    0 <= j < cols ==> (#[trigger] seen@[j] <==> exists|i: int| 0 <= i < r && !is_wrong(#[trigger] kv[i][j])),
                row@.len() == c,
                forall|j: int| 0 <= j < c ==> #[trigger] row@[j] == cell(kv, r as int, j),
            decreases cols - c,
        {
            let kind = k[r][c];
            let wrong = kind == WordleGuessKind::NotInWord;
            let support = wrong && seen[c];
            let topper = latest_wrong && depths[c] == least && r < depths[c];
            row.push(WordleGuess { support, topper, kind });
            c += 1;
        }
        assert(row@ =~= annotated(kv)[r as int]);

        c = 0;
        while c < cols
            invariant
                kv == kinds_view(k@),
                rectangular(kv),
                cols == kv[0].len(),
                r < kv.len(),
                kv[r as int] == k@[r as int]@,
                c <= cols,
                seen@.len() == cols,
                forall|j: int|
                    0 <= j < c ==> (#[trigger] seen@[j] <==> exists|i: int| 0 <= i <= r && !is_wrong(#[trigger] kv[i][j])),
                forall|j: int|
                    c <= j < cols ==> (#[trigger] seen@[j] <==> exists|i: int| 0 <= i < r && !is_wrong(#[trigger] kv[i][j])),
            decreases cols - c,
        {
            if k[r][c] != WordleGuessKind::NotInWord {
                seen.set(c, true);
            }
            c += 1;
        }
        g.push(row);
        r += 1;
    }
    assert(cells_view(g@) =~= annotated(kv));
    g
}

} // verus!
