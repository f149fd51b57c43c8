use wordle_share::glyph::{WordleGuess, WordleGuessKind};
use wordle_share::grid::WordleGrid;
use wordle_share::layout::{box_for, BoxColor, Placement};

fn cell(kind: WordleGuessKind, support: bool, topper: bool) -> WordleGuess {
    WordleGuess { support, topper, kind }
}

#[test]
fn box_colors() {
    assert_eq!(box_for(&cell(WordleGuessKind::Correct, false, false)), Some(BoxColor::Green));
    assert_eq!(box_for(&cell(WordleGuessKind::InWord, false, false)), Some(BoxColor::Yellow));
    assert_eq!(box_for(&cell(WordleGuessKind::NotInWord, true, false)), Some(BoxColor::Black));
    assert_eq!(box_for(&cell(WordleGuessKind::NotInWord, false, true)), Some(BoxColor::Black));
    assert_eq!(box_for(&cell(WordleGuessKind::NotInWord, false, false)), None);
}

#[test]
fn placements_skip_hidden_cells() {
    // Row 0 is 🟩⬛ and row 1 is ⬛⬛: only (1, 0) stands above a hit.
    let grid = WordleGrid::parse("⬛⬛\n🟩⬛").unwrap();
    assert!(grid.is_walkable());
    assert_eq!(
        grid.placements(),
        vec![
            Placement { row: 0, col: 0, color: BoxColor::Green, new_row: false },
            Placement { row: 1, col: 0, color: BoxColor::Black, new_row: true },
        ]
    );
}

#[test]
fn all_wrong_latest_row_gets_a_topper_box() {
    let grid = WordleGrid::parse("🟨\n⬛").unwrap();
    assert_eq!(
        grid.placements(),
        vec![
            Placement { row: 0, col: 0, color: BoxColor::Black, new_row: false },
            Placement { row: 1, col: 0, color: BoxColor::Yellow, new_row: true },
        ]
    );
}

#[test]
fn placements_of_example_share() {
    let grid = WordleGrid::parse("Wordle 218 3/6\n⬛⬛⬛⬛⬛\n⬛🟩⬛⬛🟨\n🟨🟩⬛⬛⬛\n🟩🟩🟩🟩🟩").unwrap();
    let p = grid.placements();
    assert_eq!(p.len(), 20);
    let colors: Vec<BoxColor> = p.iter().map(|x| x.color).collect();
    let (g, y, b) = (BoxColor::Green, BoxColor::Yellow, BoxColor::Black);
    assert_eq!(
        colors,
        vec![g, g, g, g, g, b, b, b, g, y, b, g, b, b, y, b, b, b, b, b]
    );
    let starts: Vec<usize> = p.iter().enumerate().filter(|(_, x)| x.new_row).map(|(i, _)| i).collect();
    assert_eq!(starts, vec![5, 10, 15]);
}

#[test]
fn ragged_grid_is_not_walkable() {
    let grid = WordleGrid {
        number: None,
        guesses: vec![vec![WordleGuess::default(); 2], vec![WordleGuess::default(); 3]],
    };
    assert!(!grid.is_walkable());
}
