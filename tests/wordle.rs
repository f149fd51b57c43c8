use std::str::FromStr;

use wordle_share::glyph::{WordleGuess, WordleGuessKind, WordleParseError};
use wordle_share::grid::WordleGrid;
use wordle_share::snake::WordleGridSnakeIterator;

fn coords(snake: WordleGridSnakeIterator) -> Vec<(usize, usize)> {
    let mut it = snake;
    let mut out = Vec::new();
    while let Some((row, col, _)) = it.next() {
        out.push((row, col));
    }
    out
}

fn topper_coords(snake: WordleGridSnakeIterator) -> Vec<(usize, usize)> {
    let mut it = snake;
    let mut out = Vec::new();
    while let Some((row, col, guess)) = it.next() {
        if guess.topper {
            out.push((row, col));
        }
    }
    out
}

#[test]
fn it_works() {
    let share = "Wordle 218 3/6
⬛⬛⬛⬛⬛
⬛🟩⬛⬛🟨
🟨🟩⬛⬛⬛
🟩🟩🟩🟩🟩";

    let grid = WordleGrid::from_str(share);

    assert!(grid.is_ok());

    let grid = grid.unwrap();

    assert_eq!(grid.number, Some(218));

    let snake = grid.snake_iter();

    let coords = coords(snake.clone());

    assert_eq!(
        coords,
        vec![
            (0, 0),
            (0, 1),
            (0, 2),
            (0, 3),
            (0, 4),
            (1, 4),
            (1, 3),
            (1, 2),
            (1, 1),
            (1, 0),
            (2, 0),
            (2, 1),
            (2, 2),
            (2, 3),
            (2, 4),
            (3, 4),
            (3, 3),
            (3, 2),
            (3, 1),
            (3, 0),
        ]
    );

    let toppers = topper_coords(snake.clone());

    // The most recent guess is all green, so no cell is a topper.
    assert_eq!(toppers, Vec::<(usize, usize)>::new())
}

#[test]
fn rectangular_input_gives_its_size() {
    let grid = WordleGrid::parse("⬛🟩⬛⬜\n🟨🟨🟩⬛\n🟩🟩🟩🟩").unwrap();
    assert_eq!(grid.rows(), 3);
    assert_eq!(grid.columns(), 4);
    assert_eq!(grid.number, None);
}

#[test]
fn last_line_is_first_row() {
    let grid = WordleGrid::parse("🟨⬛\n🟩🟩").unwrap();
    assert_eq!(grid.guesses[0][0].kind, WordleGuessKind::Correct);
    assert_eq!(grid.guesses[1][0].kind, WordleGuessKind::InWord);
    assert_eq!(grid.guesses[1][1].kind, WordleGuessKind::NotInWord);
}

#[test]
fn ragged_rows_are_rejected() {
    let r = WordleGrid::parse("Wordle 5 2/6\n⬛⬛⬛\n🟩🟩");
    assert!(matches!(r, Err(WordleParseError::InvalidFormat)));
}

#[test]
fn no_rows_is_rejected() {
    assert!(matches!(WordleGrid::parse("Wordle 218 3/6\nnice one #wordle"), Err(WordleParseError::InvalidFormat)));
    assert!(matches!(WordleGrid::parse(""), Err(WordleParseError::InvalidFormat)));
    assert!(matches!(WordleGrid::parse("\n\n"), Err(WordleParseError::InvalidFormat)));
}

#[test]
fn stray_text_and_blank_lines_are_skipped() {
    let grid = WordleGrid::parse("Wordle 9 2/6\n\n⬛🟨\ngood game\n\n🟩🟩\n#wordle\n").unwrap();
    assert_eq!(grid.rows(), 2);
    assert_eq!(grid.columns(), 2);
    assert_eq!(grid.number, Some(9));
}

#[test]
fn header_number_absent_or_unreadable() {
    assert_eq!(WordleGrid::parse("⬛🟩\n🟩🟩").unwrap().number, None);
    assert_eq!(WordleGrid::parse("Wordle abc 3/6\n🟩🟩").unwrap().number, None);
    assert_eq!(WordleGrid::parse("Wordle\n🟩🟩").unwrap().number, None);
    assert_eq!(WordleGrid::parse("Wordle 4294967296 1/6\n🟩🟩").unwrap().number, None);
    assert_eq!(WordleGrid::parse("Wordle 4294967295 1/6\n🟩🟩").unwrap().number, Some(4294967295));
    assert_eq!(WordleGrid::parse("Wordle +7 1/6\n🟩🟩").unwrap().number, Some(7));
    assert_eq!(WordleGrid::parse("Wordle 12\n🟩🟩").unwrap().number, Some(12));
}

#[test]
fn earliest_header_wins() {
    let grid = WordleGrid::parse("Wordle 1 2/6\nWordle 2 2/6\n🟩🟩").unwrap();
    assert_eq!(grid.number, Some(1));
}

#[test]
fn carriage_returns_are_line_endings() {
    let grid = WordleGrid::parse("Wordle 30 2/6\r\n⬛🟨\r\n🟩🟩\r\n").unwrap();
    assert_eq!(grid.rows(), 2);
    assert_eq!(grid.columns(), 2);
    assert_eq!(grid.number, Some(30));
}

#[test]
fn chat_shortcodes_are_rewritten() {
    let grid = WordleGrid::parse(
        ":black_large_square::large_yellow_square::white_large_square:\n:large_green_square::large_orange_square::large_blue_square:",
    )
    .unwrap();
    assert_eq!(grid.columns(), 3);
    let kinds: Vec<WordleGuessKind> = grid.guesses[0].iter().map(|g| g.kind).collect();
    assert_eq!(kinds, vec![WordleGuessKind::Correct, WordleGuessKind::Correct, WordleGuessKind::InWord]);
    let kinds: Vec<WordleGuessKind> = grid.guesses[1].iter().map(|g| g.kind).collect();
    assert_eq!(kinds, vec![WordleGuessKind::NotInWord, WordleGuessKind::InWord, WordleGuessKind::NotInWord]);
}

#[test]
fn image_descriptions_are_rewritten() {
    let grid = WordleGrid::parse(
        "Black large squareYellow squareBlue square\nGreen squareOrange squareGreen square",
    )
    .unwrap();
    assert_eq!(grid.rows(), 2);
    assert_eq!(grid.columns(), 3);
    assert_eq!(grid.guesses[1][0].kind, WordleGuessKind::NotInWord);
    assert_eq!(grid.guesses[1][1].kind, WordleGuessKind::InWord);
    assert_eq!(grid.guesses[1][2].kind, WordleGuessKind::InWord);
    assert_eq!(grid.guesses[0][1].kind, WordleGuessKind::Correct);
}

#[test]
fn colorblind_glyphs_map_to_kinds() {
    let grid = WordleGrid::parse("🟧🟦⬜").unwrap();
    assert_eq!(grid.guesses[0][0].kind, WordleGuessKind::Correct);
    assert_eq!(grid.guesses[0][1].kind, WordleGuessKind::InWord);
    assert_eq!(grid.guesses[0][2].kind, WordleGuessKind::NotInWord);
}

#[test]
fn try_from_maps_glyphs() {
    assert!(matches!(WordleGuessKind::try_from('⬛'), Ok(WordleGuessKind::NotInWord)));
    assert!(matches!(WordleGuessKind::try_from('🟨'), Ok(WordleGuessKind::InWord)));
    assert!(matches!(WordleGuessKind::try_from('🟩'), Ok(WordleGuessKind::Correct)));
    assert!(matches!(WordleGuessKind::try_from('x'), Err(WordleParseError::InvalidCharacter)));
}

#[test]
fn default_guess_is_plain_wrong() {
    let g = WordleGuess::default();
    assert_eq!(g, WordleGuess { support: false, topper: false, kind: WordleGuessKind::NotInWord });
}

#[test]
fn support_above_first_hit() {
    // Bottom to top: NotInWord, InWord, NotInWord, NotInWord.
    let grid = WordleGrid::parse("⬛\n⬛\n🟨\n⬛").unwrap();
    let support: Vec<bool> = grid.guesses.iter().map(|row| row[0].support).collect();
    assert_eq!(support, vec![false, false, true, true]);
}

#[test]
fn support_is_per_column() {
    let grid = WordleGrid::parse("⬛⬛\n🟩⬛").unwrap();
    assert!(grid.guesses[1][0].support);
    assert!(!grid.guesses[1][1].support);
}

#[test]
fn no_toppers_when_latest_row_has_a_hit() {
    // Row 0 is the last line: it holds a correct guess.
    let grid = WordleGrid::parse("⬛⬛⬛\n⬛🟩⬛").unwrap();
    assert!(grid.guesses.iter().all(|row| row.iter().all(|g| !g.topper)));
}

#[test]
fn toppers_on_shallowest_column() {
    // Row 0 is all wrong; depths counted from row 0 up are 2, 1, 2.
    let grid = WordleGrid::parse("⬛🟩⬛\n⬛⬛⬛").unwrap();
    assert_eq!(topper_coords(grid.snake_iter()), vec![(0, 1)]);
}

#[test]
fn toppers_cover_whole_streak() {
    // Depths are 2, 3, 2: columns 0 and 2 get toppers on rows 0 and 1.
    let grid = WordleGrid::parse("🟨⬛🟩\n⬛⬛⬛\n⬛⬛⬛").unwrap();
    assert_eq!(topper_coords(grid.snake_iter()), vec![(0, 0), (0, 2), (1, 2), (1, 0)]);
}

#[test]
fn earliest_guess_all_wrong_gives_no_toppers() {
    // The first line is the earliest guess; only the most recent one counts.
    let grid = WordleGrid::parse("⬛⬛⬛\n🟩🟩🟩").unwrap();
    assert!(grid.guesses.iter().all(|row| row.iter().all(|g| !g.topper)));
}

#[test]
fn all_wrong_grid_tops_every_cell() {
    let grid = WordleGrid::parse("⬛⬛\n⬛⬛").unwrap();
    assert_eq!(topper_coords(grid.snake_iter()).len(), 4);
    assert!(grid.guesses.iter().all(|row| row.iter().all(|g| !g.support)));
}

#[test]
fn snake_four_by_five() {
    let grid = WordleGrid::parse("⬛⬛⬛⬛⬛\n⬛⬛⬛⬛⬛\n⬛⬛⬛⬛⬛\n⬛⬛⬛⬛⬛").unwrap();
    let c = coords(grid.snake_iter());
    assert_eq!(c.len(), 20);
    let mut expected = Vec::new();
    for row in 0..4usize {
        for i in 0..5usize {
            let col = if row % 2 == 0 { i } else { 4 - i };
            expected.push((row, col));
        }
    }
    assert_eq!(c, expected);
}

#[test]
fn snake_copies_resume_independently() {
    let grid = WordleGrid::parse("⬛🟨\n🟩🟩").unwrap();
    let mut it = grid.snake_iter();
    assert_eq!(it.next().map(|(r, c, _)| (r, c)), Some((0, 0)));
    let copy = it.clone();
    assert_eq!(it.next().map(|(r, c, _)| (r, c)), Some((0, 1)));
    assert_eq!(coords(copy), vec![(0, 1), (1, 1), (1, 0)]);
    assert_eq!(it.next().map(|(r, c, g)| (r, c, g.kind)), Some((1, 1, WordleGuessKind::InWord)));
    assert_eq!(it.next().map(|(r, c, _)| (r, c)), Some((1, 0)));
    assert!(it.next().is_none());
    assert!(it.next().is_none());
}

#[test]
fn parsing_twice_gives_equal_grids() {
    let text = "Wordle 218 3/6\n⬛⬛⬛⬛⬛\n⬛🟩⬛⬛🟨\n🟨🟩⬛⬛⬛\n🟩🟩🟩🟩🟩";
    let a = WordleGrid::parse(text).unwrap();
    let b = WordleGrid::parse(text).unwrap();
    assert_eq!(a.number, b.number);
    assert_eq!(a.rows(), b.rows());
    assert_eq!(a.columns(), b.columns());
    assert_eq!(a.guesses, b.guesses);
}

#[test]
fn shortcode_share_parses_as_glyph_share() {
    let coded = "Wordle 220 2/6\n:large_yellow_square::black_large_square:Green square\nBlue squareBlack large square:large_orange_square:\n:large_green_square::large_green_square::large_green_square:";
    let glyphs = "Wordle 220 2/6\n🟨⬛🟩\n🟨⬛🟩\n🟩🟩🟩";
    let a = WordleGrid::from_str(coded).unwrap();
    let b = WordleGrid::from_str(glyphs).unwrap();
    assert_eq!(a.number, b.number);
    assert_eq!(a.guesses, b.guesses);
}
