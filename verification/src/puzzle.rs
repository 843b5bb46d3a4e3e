//! The decoded puzzle and the decoder that runs the stages in order.

use vstd::prelude::*;
use vstd::slice::slice_subrange;

use crate::clues::cells_text;
use crate::clues::clue_views;
use crate::clues::clues_of;
use crate::clues::reconstruct_clues;
use crate::clues::well_formed_clues;
use crate::clues::Clue;
use crate::clues::ClueView;
use crate::error::FormatError;
use crate::error::Stage;
use crate::grid::extract_grids;
use crate::grid::grids_at;
use crate::header::decode_header;
use crate::header::header_at;
use crate::header::has_marker;
use crate::header::header_start;
use crate::header::locate_header;
use crate::header::HEADER_LEN;
use crate::laws::lemma_header_dimensions_fit;
use crate::laws::lemma_puzzle_well_formed;
use crate::text::parse_string_table;
use crate::text::string_table;

verus! {

/// The entries of the string table that stand before the clue texts: title,
/// author and copyright.
pub const LEADING_TEXTS: usize = 3;

/// A decoded puzzle.
#[derive(Debug, Clone, PartialEq, Eq)]
pub struct Puzzle {
    pub title: String,
    pub author: String,
    pub copyright: String,
    /// The last entry of the string table.
    pub notes: String,
    /// The number of columns.
    pub width: u16,
    /// The number of rows.
    pub height: u16,
    /// The clues in row-major order of the cells in which they start, the
    /// across clue of a cell before its down clue.
    pub clues: Vec<Clue>,
    /// The solution grid in row-major order, one character for each cell.
    pub board: Vec<char>,
    /// The player's grid, of the same shape.
    pub player_state: Vec<char>,
}

/// What a [`Puzzle`] holds, as mathematical values.
pub ghost struct PuzzleView {
    pub title: Seq<char>,
    pub author: Seq<char>,
    pub copyright: Seq<char>,
    pub notes: Seq<char>,
    pub width: int,
    pub height: int,
    pub clues: Seq<ClueView>,
    pub board: Seq<char>,
    pub player_state: Seq<char>,
}

impl View for Puzzle {
    type V = PuzzleView;

    open spec fn view(&self) -> PuzzleView {
        PuzzleView {
            title: self.title@,
            author: self.author@,
            copyright: self.copyright@,
            notes: self.notes@,
            width: self.width as int,
            height: self.height as int,
            clues: clue_views(self.clues@),
            board: self.board@,
            player_state: self.player_state@,
        }
    }
}

impl PuzzleView {
    /// Both grids have `width * height` cells, each dimension fits a byte,
    /// and the clues are a well-formed list for a grid of that size.
    pub open spec fn well_formed(self) -> bool {
        &&& 0 <= self.width <= 255
        &&& 0 <= self.height <= 255
        &&& self.board.len() == self.width * self.height
        &&& self.player_state.len() == self.width * self.height
        &&& well_formed_clues(self.clues, self.width * self.height)
    }
}

/// The texts of a string table that are kept for the clues: those between
/// the three leading entries and the last entry.
pub open spec fn clue_texts(table: Seq<Seq<char>>) -> Seq<Seq<char>> {
    if table.len() > 3 {
        table.subrange(3, table.len() - 1)
    } else {
        Seq::empty()
    }
}

/// The puzzle made of a string table of three entries or more, the
/// dimensions, the clues and the two grids.
pub open spec fn assembled(
    table: Seq<Seq<char>>,
    width: int,
    height: int,
    clues: Seq<ClueView>,
    solution: Seq<u8>,
    player: Seq<u8>,
) -> PuzzleView {
    PuzzleView {
        title: table[0],
        author: table[1],
        copyright: table[2],
        notes: table.last(),
        width,
        height,
        clues,
        board: cells_text(solution),
        player_state: cells_text(player),
    }
}

/// Where the string table of a puzzle starts whose header starts at
/// `start`: behind the header and the two grids.
pub open spec fn strings_start(start: int, width: int, height: int) -> int {
    start + 52 + 2 * (width * height)
}

/// The puzzle that a buffer holds, or the first failure of the stages in
/// their order: header location, header fields, grids, string table, clues.
pub open spec fn puzzle_of(bytes: Seq<u8>) -> Result<PuzzleView, FormatError> {
    match header_start(bytes) {
        Err(e) => Err(e),
        Ok(start) => match header_at(bytes, start) {
            Err(e) => Err(e),
            Ok(header) => match grids_at(bytes, start + 52, header.width, header.height) {
                Err(e) => Err(e),
                Ok(grids) => {
                    let table = string_table(
                        bytes.skip(strings_start(start, header.width, header.height)),
                    );
                    if table.len() < 3 {
                        Err(FormatError::TruncatedInput(Stage::StringTable))
                    } else {
                        match clues_of(grids.0, header.width, header.height, clue_texts(table)) {
                            Err(e) => Err(e),
                            Ok(clues) => Ok(
                                assembled(
                                    table,
                                    header.width,
                                    header.height,
                                    clues,
                                    grids.0,
                                    grids.1,
                                ),
                            ),
                        }
                    }
                },
            },
        },
    }
}

/// Gives each cell symbol as the character with that code point.
pub fn cells_to_chars(cells: &[u8]) -> (chars: Vec<char>)
    ensures
        chars@ == cells_text(cells@),
{
    let mut chars: Vec<char> = Vec::new();
    let mut k: usize = 0;
    while k < cells.len()
        invariant
            k <= cells.len(),
            chars@ == cells_text(cells@.take(k as int)),
        decreases cells.len() - k,
    {
        chars.push(cells[k] as char);
        assert(chars@ =~= cells_text(cells@.take(k + 1)));
        k += 1;
    }
    assert(cells@.take(k as int) =~= cells@);
    chars
}

/// Puts the parts of a decoded puzzle together. The first three entries of
/// the table are title, author and copyright, the last one the notes.
pub fn assemble(
    table: &[String],
    width: u16,
    height: u16,
    clues: Vec<Clue>,
    solution: &[u8],
    player: &[u8],
) -> (puzzle: Puzzle)
    requires
        table@.len() >= 3,
    ensures
        puzzle@ == assembled(
            table.deep_view(),
            width as int,
            height as int,
            clue_views(clues@),
            solution@,
            player@,
        ),
        width <= 255 && height <= 255 && solution@.len() == width as int * height as int
            && player@.len() == solution@.len() && well_formed_clues(
            clue_views(clues@),
            width as int * height as int,
        ) ==> puzzle@.well_formed(),
{
    Puzzle {
        title: table[0].clone(),
        author: table[1].clone(),
        copyright: table[2].clone(),
        notes: table[table.len() - 1].clone(),
        width,
        height,
        clues,
        board: cells_to_chars(solution),
        player_state: cells_to_chars(player),
    }
}

/// Decodes the bytes of one puzzle file.
pub fn parse(bytes: &[u8]) -> (r: Result<Puzzle, FormatError>)
    ensures
        r matches Ok(puzzle) ==> puzzle_of(bytes@) == Ok::<PuzzleView, FormatError>(puzzle@),
        r matches Err(e) ==> puzzle_of(bytes@) == Err::<PuzzleView, FormatError>(e),
        r matches Ok(puzzle) ==> puzzle@.well_formed(),
        bytes@.len() >= 12 && !has_marker(bytes@) ==> r == Err::<Puzzle, FormatError>(
            FormatError::MarkerNotFound,
        ),
        r != Err::<Puzzle, FormatError>(FormatError::DimensionOverflow),
{
    proof {
        lemma_header_dimensions_fit(bytes@);
    }
    let start = match locate_header(bytes) {
        Ok(start) => start,
        Err(e) => {
            return Err(e);
        },
    };
    let header = match decode_header(bytes, start) {
        Ok(header) => header,
        Err(e) => {
            return Err(e);
        },
    };
    let width = header.width as u16;
    let height = header.height as u16;
    assert(start + HEADER_LEN <= bytes.len());
    let (solution, player) = match extract_grids(bytes, start + HEADER_LEN, width, height) {
        Ok(grids) => grids,
        Err(e) => {
            return Err(e);
        },
    };
    let strings_at = start + HEADER_LEN + 2 * solution.len();
    let table = parse_string_table(slice_subrange(bytes, strings_at, bytes.len()));
    if table.len() < LEADING_TEXTS {
        return Err(FormatError::TruncatedInput(Stage::StringTable));
    }
    let texts_end = if table.len() > LEADING_TEXTS {
        table.len() - 1
    } else {
        LEADING_TEXTS
    };
    let texts = slice_subrange(table.as_slice(), LEADING_TEXTS, texts_end);
    assert(texts.deep_view() =~= clue_texts(table.deep_view()));
    let clues = match reconstruct_clues(solution, width, height, texts) {
        Ok(clues) => clues,
        Err(e) => {
            return Err(e);
        },
    };
    let puzzle = assemble(table.as_slice(), width, height, clues, solution, player);
    proof {
        lemma_puzzle_well_formed(bytes@);
    }
    Ok(puzzle)
}

} // verus!
