//! What holds of every buffer and every grid, proved from the definitions
//! that the contracts of the decoder are stated in.

use vstd::prelude::*;

use crate::clues::cell_clues;
use crate::clues::cells_text;
use crate::clues::clue_at;
use crate::clues::clues_below;
use crate::clues::clues_of;
use crate::clues::in_order;
use crate::clues::is_open;
use crate::clues::lemma_clues_below_len;
use crate::clues::lemma_numbered_below_grows;
use crate::clues::numbered_below;
use crate::clues::numbered_on;
use crate::clues::run;
use crate::clues::starts_across;
use crate::clues::starts_below;
use crate::clues::starts_down;
use crate::clues::well_formed_clues;
use crate::clues::ClueOrientation;
use crate::clues::ClueView;
use crate::error::FormatError;
use crate::grid::grids_at;
use crate::grid::BLOCKED_CELL;
use crate::grid::MAX_CELLS;
use crate::header::first_marker_at;
use crate::header::has_marker;
use crate::header::header_at;
use crate::header::header_start;
use crate::header::lemma_first_marker_unique;
use crate::header::marker_at;
use crate::puzzle::clue_texts;
use crate::puzzle::puzzle_of;
use crate::puzzle::PuzzleView;
use crate::puzzle::strings_start;
use crate::text::string_table;

verus! {

/// The two grids have `width * height` cells each and lie directly behind
/// the header, the player grid directly behind the solution grid: together
/// they are the `2 * width * height` bytes that follow the header.
pub proof fn lemma_grids_tile_input(bytes: Seq<u8>, header_end: int, width: int, height: int)
    requires
        0 <= header_end,
        0 <= width,
        0 <= height,
        grids_at(bytes, header_end, width, height) is Ok,
    ensures
        ({
            let grids = grids_at(bytes, header_end, width, height)->Ok_0;
            &&& grids.0.len() == width * height
            &&& grids.1.len() == width * height
            &&& grids.0 + grids.1 == bytes.subrange(header_end, header_end + 2 * (width * height))
        }),
{
    let cells = width * height;
    assert(0 <= cells) by (nonlinear_arith)
        requires
            0 <= width,
            0 <= height,
            cells == width * height,
    ;
    let grids = grids_at(bytes, header_end, width, height)->Ok_0;
}

/// In a decoded puzzle both grids have `width * height` cells, and they are
/// the bytes between the header and the string table, the solution grid
/// first, with no byte between them and none in both.
pub proof fn lemma_puzzle_grids_tile_input(bytes: Seq<u8>)
    requires
        puzzle_of(bytes) is Ok,
    ensures
        ({
            let puzzle = puzzle_of(bytes)->Ok_0;
            let start = header_start(bytes)->Ok_0;
            let cells = puzzle.width * puzzle.height;
            &&& header_start(bytes) is Ok
            &&& 0 <= start
            &&& 0 <= cells
            &&& start + 52 + 2 * cells <= bytes.len()
            &&& puzzle.board.len() == cells
            &&& puzzle.player_state.len() == cells
            &&& puzzle.board == cells_text(bytes.subrange(start + 52, start + 52 + cells))
            &&& puzzle.player_state == cells_text(
                bytes.subrange(start + 52 + cells, start + 52 + 2 * cells),
            )
            &&& strings_start(start, puzzle.width, puzzle.height) == start + 52 + 2 * cells
        }),
{
    let start = header_start(bytes)->Ok_0;
    let header = header_at(bytes, start)->Ok_0;
    assert(0 <= header.width * header.height) by (nonlinear_arith)
        requires
            0 <= header.width,
            0 <= header.height,
    ;
    lemma_grids_tile_input(bytes, start + 52, header.width, header.height);
}

/// No buffer is refused for the dimensions of its grid: a header gives
/// each of them in one byte.
pub proof fn lemma_header_dimensions_fit(bytes: Seq<u8>)
    ensures
        puzzle_of(bytes) != Err::<PuzzleView, FormatError>(
            FormatError::DimensionOverflow,
        ),
{
    if header_start(bytes) is Ok {
        let start = header_start(bytes)->Ok_0;
        if header_at(bytes, start) is Ok {
            let header = header_at(bytes, start)->Ok_0;
            assert(header.width * header.height <= MAX_CELLS) by (nonlinear_arith)
                requires
                    0 <= header.width <= 255,
                    0 <= header.height <= 255,
            ;
        }
    }
}

/// A run holds open cells only.
pub proof fn lemma_run_is_open(board: Seq<u8>, i: int, step: int, limit: int)
    ensures
        run(board, i, step, limit).len() <= if limit > 0 {
            limit
        } else {
            0
        },
        forall|k: int|
            0 <= k < run(board, i, step, limit).len() ==> #[trigger] run(board, i, step, limit)[k]
                != BLOCKED_CELL,
    decreases limit,
{
    if limit <= 0 || !is_open(board, i) {
    } else {
        lemma_run_is_open(board, i + step, step, limit - 1);
    }
}

/// A clue view is the clue of its own cell and orientation, and an answer
/// of that orientation starts there.
pub open spec fn is_clue_of(board: Seq<u8>, width: int, height: int, clue: ClueView) -> bool {
    &&& clue == clue_at(board, width, height, clue.grid_index, clue.orientation, clue.text)
    &&& match clue.orientation {
        ClueOrientation::Across => starts_across(board, width, clue.grid_index),
        ClueOrientation::Down => starts_down(board, width, height, clue.grid_index),
    }
}

/// Every clue of the list is the clue of a cell below `i`, is printed as
/// the text of its own position, and follows its predecessor in row-major
/// order, the across clue of a cell before the down clue.
pub proof fn lemma_clues_below_shape(
    board: Seq<u8>,
    width: int,
    height: int,
    texts: Seq<Seq<char>>,
    i: int,
)
    ensures
        ({
            let clues = clues_below(board, width, height, texts, i);
            &&& forall|k: int|
                0 <= k < clues.len() ==> {
                    &&& is_clue_of(board, width, height, #[trigger] clues[k])
                    &&& 0 <= clues[k].grid_index < i
                    &&& clues[k].text == texts[k]
                }
            &&& forall|j: int, k: int|
                0 <= j && k == j + 1 && k < clues.len() ==> in_order(
                    #[trigger] clues[j],
                    #[trigger] clues[k],
                )
        }),
    decreases i,
{
    if i > 0 {
        lemma_clues_below_shape(board, width, height, texts, i - 1);
    }
}

/// An answer of orientation `orientation` starts in cell `i`.
pub open spec fn starts(
    board: Seq<u8>,
    width: int,
    height: int,
    i: int,
    orientation: ClueOrientation,
) -> bool {
    match orientation {
        ClueOrientation::Across => starts_across(board, width, i),
        ClueOrientation::Down => starts_down(board, width, height, i),
    }
}

/// The list holds a clue of orientation `orientation` for cell `i`.
pub open spec fn holds_clue(clues: Seq<ClueView>, i: int, orientation: ClueOrientation) -> bool {
    exists|k: int|
        0 <= k < clues.len() && (#[trigger] clues[k]).grid_index == i && clues[k].orientation
            == orientation
}

/// Every answer that starts in a cell below `i` has its clue in the list.
pub proof fn lemma_clues_below_complete(
    board: Seq<u8>,
    width: int,
    height: int,
    texts: Seq<Seq<char>>,
    i: int,
)
    ensures
        forall|g: int, orientation: ClueOrientation|
            0 <= g < i && #[trigger] starts(board, width, height, g, orientation) ==> holds_clue(
                clues_below(board, width, height, texts, i),
                g,
                orientation,
            ),
    decreases i,
{
    if i > 0 {
        lemma_clues_below_complete(board, width, height, texts, i - 1);
        let earlier = clues_below(board, width, height, texts, i - 1);
        let here = cell_clues(board, width, height, texts, i - 1, earlier.len() as int);
        let clues = clues_below(board, width, height, texts, i);
        assert forall|g: int, orientation: ClueOrientation|
            0 <= g < i && #[trigger] starts(
                board,
                width,
                height,
                g,
                orientation,
            ) implies holds_clue(clues, g, orientation) by {
            if g < i - 1 {
                let k = choose|k: int|
                    0 <= k < earlier.len() && (#[trigger] earlier[k]).grid_index == g
                        && earlier[k].orientation == orientation;
                assert(clues[k] == earlier[k]);
            } else if orientation == ClueOrientation::Across {
                assert(clues[earlier.len() as int] == here[0]);
            } else {
                assert(clues[clues.len() - 1] == here[here.len() - 1]);
            }
        }
    }
}

/// The clues of a grid are the answers that start in it, each once: the
/// list holds a clue for a cell and an orientation exactly where an answer
/// of that orientation starts in that cell, and two places of the list
/// differ in the cell or in the orientation.
pub proof fn lemma_clues_are_the_starts(
    board: Seq<u8>,
    width: int,
    height: int,
    texts: Seq<Seq<char>>,
)
    requires
        clues_of(board, width, height, texts) is Ok,
    ensures
        ({
            let clues = clues_of(board, width, height, texts)->Ok_0;
            &&& forall|g: int, orientation: ClueOrientation|
                #[trigger] holds_clue(clues, g, orientation) <==> 0 <= g < width * height && starts(
                    board,
                    width,
                    height,
                    g,
                    orientation,
                )
            &&& forall|j: int, k: int|
                0 <= j < k < clues.len() ==> (#[trigger] clues[j]).grid_index != (
                #[trigger] clues[k]).grid_index || clues[j].orientation != clues[k].orientation
        }),
{
    let clues = clues_of(board, width, height, texts)->Ok_0;
    lemma_clues_below_shape(board, width, height, texts, width * height);
    lemma_clues_below_complete(board, width, height, texts, width * height);
    assert forall|g: int, orientation: ClueOrientation| #[trigger]
        holds_clue(clues, g, orientation) implies 0 <= g < width * height && starts(
        board,
        width,
        height,
        g,
        orientation,
    ) by {
        let k = choose|k: int|
            0 <= k < clues.len() && (#[trigger] clues[k]).grid_index == g && clues[k].orientation
                == orientation;
        assert(is_clue_of(board, width, height, clues[k]));
    }
    assert forall|j: int, k: int| 0 <= j < k < clues.len() implies (#[trigger] clues[j]).grid_index
        != (#[trigger] clues[k]).grid_index || clues[j].orientation != clues[k].orientation by {
        lemma_in_order_far(clues, j, k);
    }
}

/// In a list whose neighbours are in order, a later clue starts in a later
/// cell than an earlier one, or in the same cell as its down clue.
pub proof fn lemma_in_order_far(clues: Seq<ClueView>, j: int, k: int)
    requires
        0 <= j < k < clues.len(),
        forall|a: int, b: int|
            0 <= a && b == a + 1 && b < clues.len() ==> in_order(
                #[trigger] clues[a],
                #[trigger] clues[b],
            ),
    ensures
        in_order(clues[j], clues[k]),
    decreases k - j,
{
    if j + 1 < k {
        lemma_in_order_far(clues, j, k - 1);
        assert(in_order(clues[k - 1], clues[k]));
    }
}

/// The length of each clue is the number of characters of its answer, and
/// no answer holds the symbol of a blocked cell.
pub proof fn lemma_answers_fit(board: Seq<u8>, width: int, height: int, texts: Seq<Seq<char>>)
    requires
        clues_of(board, width, height, texts) is Ok,
    ensures
        ({
            let clues = clues_of(board, width, height, texts)->Ok_0;
            forall|k: int|
                0 <= k < clues.len() ==> {
                    &&& (#[trigger] clues[k]).length == clues[k].answer.len()
                    &&& !clues[k].answer.contains('.')
                }
        }),
{
    let clues = clues_of(board, width, height, texts)->Ok_0;
    lemma_clues_below_shape(board, width, height, texts, width * height);
    assert forall|k: int| 0 <= k < clues.len() implies {
        &&& (#[trigger] clues[k]).length == clues[k].answer.len()
        &&& !clues[k].answer.contains('.')
    } by {
        let g = clues[k].grid_index;
        lemma_run_is_open(board, g, 1, width - g % width);
        lemma_run_is_open(board, g, width, height - g / width);
    }
}

/// The numbers of the clues in the order of the list: the first clue has
/// number 1, and each later clue has the number of its predecessor where
/// both start in one cell, and the next number where they do not. The last
/// number is the count of cells below `i` in which a clue starts.
pub proof fn lemma_clues_below_numbers(
    board: Seq<u8>,
    width: int,
    height: int,
    texts: Seq<Seq<char>>,
    i: int,
)
    ensures
        ({
            let clues = clues_below(board, width, height, texts, i);
            &&& clues.len() == 0 ==> numbered_below(board, width, height, i) == 0
            &&& clues.len() > 0 ==> clues[0].number == 1 && clues.last().number == numbered_below(
                board,
                width,
                height,
                i,
            )
            &&& forall|j: int, k: int|
                0 <= j && k == j + 1 && k < clues.len() ==> numbered_on(
                    #[trigger] clues[j],
                    #[trigger] clues[k],
                )
        }),
    decreases i,
{
    if i > 0 {
        lemma_clues_below_numbers(board, width, height, texts, i - 1);
        lemma_clues_below_shape(board, width, height, texts, i - 1);
    }
}

/// The clue numbers run from 1 without a gap, and two clues have the same
/// number exactly where they start in the same cell.
pub proof fn lemma_numbers_contiguous(
    board: Seq<u8>,
    width: int,
    height: int,
    texts: Seq<Seq<char>>,
)
    requires
        clues_of(board, width, height, texts) is Ok,
    ensures
        ({
            let clues = clues_of(board, width, height, texts)->Ok_0;
            &&& clues.len() > 0 ==> clues[0].number == 1
            &&& forall|j: int, k: int|
                0 <= j && k == j + 1 && k < clues.len() ==> (#[trigger] clues[k]).number == (
                #[trigger] clues[j]).number || clues[k].number == clues[j].number + 1
            &&& forall|j: int, k: int|
                0 <= j < clues.len() && 0 <= k < clues.len() ==> ((#[trigger] clues[j]).number == (
                #[trigger] clues[k]).number <==> clues[j].grid_index == clues[k].grid_index)
        }),
{
    let clues = clues_of(board, width, height, texts)->Ok_0;
    lemma_clues_below_numbers(board, width, height, texts, width * height);
    lemma_clues_below_shape(board, width, height, texts, width * height);
    assert forall|j: int, k: int| 0 <= j < clues.len() && 0 <= k < clues.len() implies ((
    #[trigger] clues[j]).number == (#[trigger] clues[k]).number <==> clues[j].grid_index
        == clues[k].grid_index) by {
        let a = clues[j].grid_index;
        let b = clues[k].grid_index;
        if a < b {
            lemma_numbered_below_grows(board, width, height, a + 1, b);
        } else if b < a {
            lemma_numbered_below_grows(board, width, height, b + 1, a);
        }
    }
}

/// The clues of a grid are a well-formed list.
pub proof fn lemma_clues_well_formed(
    board: Seq<u8>,
    width: int,
    height: int,
    texts: Seq<Seq<char>>,
)
    requires
        clues_of(board, width, height, texts) is Ok,
    ensures
        well_formed_clues(clues_of(board, width, height, texts)->Ok_0, width * height),
{
    let clues = clues_of(board, width, height, texts)->Ok_0;
    lemma_answers_fit(board, width, height, texts);
    lemma_clues_below_shape(board, width, height, texts, width * height);
    lemma_clues_below_numbers(board, width, height, texts, width * height);
    assert forall|k: int| 0 <= k < clues.len() implies (#[trigger] clues[k]).well_formed(
        width * height,
    ) by {
        lemma_numbered_below_grows(board, width, height, 0, clues[k].grid_index);
    }
}

/// The clues take as many texts as the grid starts clues, the clue at
/// position `k` the text at position `k`; a table with fewer texts than
/// that is refused.
pub proof fn lemma_texts_consumed(board: Seq<u8>, width: int, height: int, texts: Seq<Seq<char>>)
    requires
        width * height <= MAX_CELLS,
    ensures
        texts.len() < starts_below(board, width, height, width * height) ==> clues_of(
            board,
            width,
            height,
            texts,
        ) == Err::<Seq<ClueView>, FormatError>(FormatError::ClueTextUnderflow),
        texts.len() >= starts_below(board, width, height, width * height) ==> {
            let clues = clues_of(board, width, height, texts)->Ok_0;
            &&& clues_of(board, width, height, texts) is Ok
            &&& clues.len() == starts_below(board, width, height, width * height)
            &&& forall|k: int| 0 <= k < clues.len() ==> (#[trigger] clues[k]).text == texts[k]
        },
{
    lemma_clues_below_len(board, width, height, texts, width * height);
    lemma_clues_below_shape(board, width, height, texts, width * height);
}

/// The solution grid of the puzzle that `bytes` hold, where the header was
/// found and read.
pub open spec fn solution_of(bytes: Seq<u8>) -> Seq<u8> {
    let start = header_start(bytes)->Ok_0;
    let header = header_at(bytes, start)->Ok_0;
    bytes.subrange(start + 52, start + 52 + header.width * header.height)
}

/// The texts of the string table of the puzzle that `bytes` hold, where the
/// header was found and read.
pub open spec fn table_of(bytes: Seq<u8>) -> Seq<Seq<char>> {
    let start = header_start(bytes)->Ok_0;
    let header = header_at(bytes, start)->Ok_0;
    string_table(bytes.skip(strings_start(start, header.width, header.height)))
}

/// The clues of a decoded puzzle are the clues of its solution grid, with
/// the texts of the string table between the third entry and the last.
pub proof fn lemma_puzzle_clues(bytes: Seq<u8>)
    requires
        puzzle_of(bytes) is Ok,
    ensures
        ({
            let puzzle = puzzle_of(bytes)->Ok_0;
            &&& table_of(bytes).len() >= 3
            &&& puzzle.board == cells_text(solution_of(bytes))
            &&& clues_of(
                solution_of(bytes),
                puzzle.width,
                puzzle.height,
                clue_texts(table_of(bytes)),
            ) == Ok::<Seq<ClueView>, FormatError>(puzzle.clues)
        }),
{
}

/// A decoded puzzle is well formed: its grids have `width * height` cells,
/// the length of each clue is the number of characters of its answer, no
/// answer holds the symbol of a blocked cell, and the clue numbers run from
/// 1 without a gap.
pub proof fn lemma_puzzle_well_formed(bytes: Seq<u8>)
    requires
        puzzle_of(bytes) is Ok,
    ensures
        puzzle_of(bytes)->Ok_0.well_formed(),
{
    let puzzle = puzzle_of(bytes)->Ok_0;
    lemma_puzzle_grids_tile_input(bytes);
    lemma_puzzle_clues(bytes);
    lemma_clues_well_formed(
        solution_of(bytes),
        puzzle.width,
        puzzle.height,
        clue_texts(table_of(bytes)),
    );
}

/// Two clues of a decoded puzzle have the same number exactly where they
/// start in the same cell.
pub proof fn lemma_puzzle_numbers_by_cell(bytes: Seq<u8>)
    requires
        puzzle_of(bytes) is Ok,
    ensures
        ({
            let clues = puzzle_of(bytes)->Ok_0.clues;
            forall|j: int, k: int|
                0 <= j < clues.len() && 0 <= k < clues.len() ==> ((#[trigger] clues[j]).number == (
                #[trigger] clues[k]).number <==> clues[j].grid_index == clues[k].grid_index)
        }),
{
    let puzzle = puzzle_of(bytes)->Ok_0;
    lemma_puzzle_clues(bytes);
    lemma_numbers_contiguous(
        solution_of(bytes),
        puzzle.width,
        puzzle.height,
        clue_texts(table_of(bytes)),
    );
}

/// A decoded puzzle has one clue for each clue start of its solution grid,
/// and clue `k` is printed as entry `3 + k` of the string table, which is
/// not the last entry.
pub proof fn lemma_puzzle_texts_consumed(bytes: Seq<u8>)
    requires
        puzzle_of(bytes) is Ok,
    ensures
        ({
            let puzzle = puzzle_of(bytes)->Ok_0;
            let table = table_of(bytes);
            &&& puzzle.clues.len() == starts_below(
                solution_of(bytes),
                puzzle.width,
                puzzle.height,
                puzzle.width * puzzle.height,
            )
            &&& forall|k: int|
                0 <= k < puzzle.clues.len() ==> 3 + k < table.len() - 1 && (
                #[trigger] puzzle.clues[k]).text == table[3 + k]
        }),
{
    let puzzle = puzzle_of(bytes)->Ok_0;
    let table = table_of(bytes);
    lemma_puzzle_clues(bytes);
    lemma_header_dimensions_fit(bytes);
    lemma_texts_consumed(
        solution_of(bytes),
        puzzle.width,
        puzzle.height,
        clue_texts(table),
    );
}

/// A buffer of twelve bytes or more that holds the marker nowhere is
/// refused for that.
pub proof fn lemma_no_marker(bytes: Seq<u8>)
    requires
        bytes.len() >= 12,
        !has_marker(bytes),
    ensures
        header_start(bytes) == Err::<int, FormatError>(FormatError::MarkerNotFound),
        puzzle_of(bytes) == Err::<PuzzleView, FormatError>(
            FormatError::MarkerNotFound,
        ),
{
}

/// Bytes before the header do not change what is decoded: where the first
/// marker of `prelude + content` is the one that stands two bytes into
/// `content`, both buffers decode alike.
pub proof fn lemma_prelude_ignored(prelude: Seq<u8>, content: Seq<u8>)
    requires
        first_marker_at(prelude + content, prelude.len() as int + 2),
    ensures
        puzzle_of(prelude + content) == puzzle_of(content),
{
    let all = prelude + content;
    let p = prelude.len() as int;
    assert(content.subrange(2, 14) =~= all.subrange(p + 2, p + 14));
    assert forall|q: int| 0 <= q < 2 implies !marker_at(content, q) by {
        if marker_at(content, q) {
            assert(all.subrange(p + q, p + q + 12) =~= content.subrange(q, q + 12));
            assert(marker_at(all, p + q));
        }
    }
    lemma_first_marker_unique(all, p + 2);
    lemma_first_marker_unique(content, 2);
    if content.len() >= 52 {
        assert(all.subrange(p, p + 52) =~= content.subrange(0, 52));
        if header_at(content, 0) is Ok {
            let header = header_at(content, 0)->Ok_0;
            let cells = header.width * header.height;
            assert(0 <= cells) by (nonlinear_arith)
                requires
                    0 <= header.width,
                    0 <= header.height,
                    cells == header.width * header.height,
            ;
            if grids_at(content, 52, header.width, header.height) is Ok {
                assert(all.subrange(p + 52, p + 52 + cells) =~= content.subrange(52, 52 + cells));
                assert(all.subrange(p + 52 + cells, p + 52 + 2 * cells) =~= content.subrange(
                    52 + cells,
                    52 + 2 * cells,
                ));
                assert(all.skip(strings_start(p, header.width, header.height)) =~= content.skip(
                    strings_start(0, header.width, header.height),
                ));
            }
        }
    }
}

} // verus!
