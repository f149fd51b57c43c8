//! The canonical glyph alphabet and the kind of guess that each glyph stands for.
use vstd::prelude::*;

verus! {

pub const BLACK: char = '⬛';

pub const WHITE: char = '⬜';

pub const GREEN: char = '🟩';

pub const YELLOW: char = '🟨';

/// Colorblind-mode glyph for a correct letter.
pub const CB_GREEN: char = '🟧';

/// Colorblind-mode glyph for a letter that is in the word elsewhere.
pub const CB_YELLOW: char = '🟦';

/// The result of guessing one letter at one position.
#[derive(Debug, Clone, Copy, PartialEq, Eq, Structural)]
pub enum WordleGuessKind {
    Correct,
    InWord,
    NotInWord,
}

/// The two failures of a parse.
#[derive(Debug, Clone, Copy, PartialEq, Eq, Structural)]
pub enum WordleParseError {
    /// Rows of unequal width, or no row at all.
    InvalidFormat,
    /// A character outside the canonical alphabet reached the mapping to kinds.
    InvalidCharacter,
}

/// Whether `c` belongs to the canonical glyph alphabet.
pub open spec fn is_canonical(c: char) -> bool {
    c == BLACK || c == WHITE || c == GREEN || c == YELLOW || c == CB_GREEN || c == CB_YELLOW
}

/// The kind that a canonical glyph stands for.
pub open spec fn kind_of(c: char) -> WordleGuessKind {
    if c == GREEN || c == CB_GREEN {
        WordleGuessKind::Correct
    } else if c == YELLOW || c == CB_YELLOW {
        WordleGuessKind::InWord
    } else {
        WordleGuessKind::NotInWord
    }
}

/// Membership in the canonical alphabet.
pub fn is_canonical_char(c: char) -> (r: bool)
    ensures
        r == is_canonical(c),
{
    c == BLACK || c == WHITE || c == GREEN || c == YELLOW || c == CB_GREEN || c == CB_YELLOW
}

/// The glyph's kind, or `InvalidCharacter` for a glyph outside the alphabet.
pub open spec fn kind_result(c: char) -> Result<WordleGuessKind, WordleParseError> {
    if is_canonical(c) {
        Ok(kind_of(c))
    } else {
        Err(WordleParseError::InvalidCharacter)
    }
}

impl TryFrom<char> for WordleGuessKind {
    type Error = WordleParseError;

    /// Maps a glyph to its kind; a glyph outside the alphabet is an `InvalidCharacter`.
    fn try_from(value: char) -> (r: Result<WordleGuessKind, WordleParseError>) {
        if value == BLACK || value == WHITE {
            Ok(WordleGuessKind::NotInWord)
        } else if value == YELLOW || value == CB_YELLOW {
            Ok(WordleGuessKind::InWord)
        } else if value == GREEN || value == CB_GREEN {
            Ok(WordleGuessKind::Correct)
        } else {
            Err(WordleParseError::InvalidCharacter)
        }
    }
}

impl vstd::std_specs::convert::TryFromSpecImpl<char> for WordleGuessKind {
    open spec fn obeys_try_from_spec() -> bool {
        true
    }

    open spec fn try_from_spec(v: char) -> Result<WordleGuessKind, WordleParseError> {
        kind_result(v)
    }
}

/// One cell of the grid: its kind and two rendering hints.
#[derive(Debug, Clone, Copy, PartialEq, Eq, Structural)]
pub struct WordleGuess {
    /// A wrong guess with a correct or in-word guess at a lower row of its column.
    pub support: bool,
    /// Marks a wrong guess that is shown so that a row of wrong guesses is visible.
    pub topper: bool,
    pub kind: WordleGuessKind,
}

impl Default for WordleGuess {
    fn default() -> (r: WordleGuess)
        ensures
            r == (WordleGuess { support: false, topper: false, kind: WordleGuessKind::NotInWord }),
    {
        WordleGuess { support: false, topper: false, kind: WordleGuessKind::NotInWord }
    }
}

} // verus!
