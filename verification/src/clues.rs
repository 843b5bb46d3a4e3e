//! Clues: where they start in the solution grid, how they are numbered,
//! and what they answer.

use vstd::prelude::*;

use crate::error::FormatError;
use crate::grid::cell_count;
use crate::grid::i_xy;
use crate::grid::xy_i;
use crate::grid::BLOCKED_CELL;
use crate::grid::MAX_CELLS;
use crate::laws::lemma_clues_well_formed;

verus! {

/// The direction in which an answer is written.
#[derive(Debug, Clone, Copy, PartialEq, Eq, Structural)]
pub enum ClueOrientation {
    Across,
    Down,
}

/// One numbered clue.
#[derive(Debug, Clone, PartialEq, Eq)]
pub struct Clue {
    /// The number printed in the grid; an across and a down clue that start
    /// in the same cell share it.
    pub number: u16,
    /// Row-major index of the cell in which the answer starts.
    pub grid_index: u16,
    /// The clue as printed.
    pub text: String,
    /// The symbols of the solution grid along the answer, one character for
    /// each cell.
    pub answer: String,
    /// The number of cells of the answer.
    pub length: u16,
    /// The direction in which the answer runs from that cell.
    pub orientation: ClueOrientation,
}

/// What a [`Clue`] holds, as mathematical values.
pub ghost struct ClueView {
    pub number: int,
    pub grid_index: int,
    pub text: Seq<char>,
    pub answer: Seq<char>,
    pub length: int,
    pub orientation: ClueOrientation,
}

impl View for Clue {
    type V = ClueView;

    open spec fn view(&self) -> ClueView {
        ClueView {
            number: self.number as int,
            grid_index: self.grid_index as int,
            text: self.text@,
            answer: self.answer@,
            length: self.length as int,
            orientation: self.orientation,
        }
    }
}

impl ClueView {
    /// The clue has a number, starts in one of the `cells` cells of its
    /// grid, is as long as its answer, and its answer holds no symbol of a
    /// blocked cell.
    pub open spec fn well_formed(self, cells: int) -> bool {
        &&& 1 <= self.number
        &&& 0 <= self.grid_index < cells
        &&& self.length == self.answer.len()
        &&& !self.answer.contains('.')
    }
}

/// Clue `later` may follow clue `earlier` in the list: it starts in a later
/// cell, or it is the down clue of the cell of which `earlier` is the
/// across clue.
pub open spec fn in_order(earlier: ClueView, later: ClueView) -> bool {
    ||| earlier.grid_index < later.grid_index
    ||| (earlier.grid_index == later.grid_index && earlier.orientation
        == ClueOrientation::Across && later.orientation == ClueOrientation::Down)
}

/// The number of `later` is that of `earlier` where both start in one
/// cell, and the next number where they do not.
pub open spec fn numbered_on(earlier: ClueView, later: ClueView) -> bool {
    later.number == earlier.number + if later.grid_index == earlier.grid_index {
        0int
    } else {
        1int
    }
}

/// A list of clues of a grid of `cells` cells is well formed: each clue
/// is, the clues stand in row-major order of their cells, and their
/// numbers run from 1 without a gap, one number for each cell.
pub open spec fn well_formed_clues(clues: Seq<ClueView>, cells: int) -> bool {
    &&& forall|k: int| 0 <= k < clues.len() ==> (#[trigger] clues[k]).well_formed(cells)
    &&& clues.len() > 0 ==> clues[0].number == 1
    &&& forall|j: int, k: int|
        0 <= j && k == j + 1 && k < clues.len() ==> in_order(#[trigger] clues[j], #[trigger] clues[k])
            && numbered_on(clues[j], clues[k])
}

/// The views of a list of clues, in order.
pub open spec fn clue_views(clues: Seq<Clue>) -> Seq<ClueView> {
    Seq::new(clues.len(), |k: int| clues[k]@)
}

/// Cell `i` lies in the grid and is not blocked.
pub open spec fn is_open(board: Seq<u8>, i: int) -> bool {
    0 <= i < board.len() && board[i] != BLOCKED_CELL
}

/// An across answer starts in cell `i`: the cell is open, it is the first
/// of its row or the cell to its left is blocked, and the cell to its right
/// lies in the row and is open.
pub open spec fn starts_across(board: Seq<u8>, width: int, i: int) -> bool {
    &&& is_open(board, i)
    &&& (i % width == 0 || !is_open(board, i - 1))
    &&& i % width + 1 < width
    &&& is_open(board, i + 1)
}

/// A down answer starts in cell `i`: the cell is open, it lies in the first
/// row or the cell above it is blocked, and the cell below it lies in the
/// grid and is open.
pub open spec fn starts_down(board: Seq<u8>, width: int, height: int, i: int) -> bool {
    &&& is_open(board, i)
    &&& (i / width == 0 || !is_open(board, i - width))
    &&& i / width + 1 < height
    &&& is_open(board, i + width)
}

/// The number of clues that start in cell `i`: none, one or two.
pub open spec fn starts_at(board: Seq<u8>, width: int, height: int, i: int) -> int {
    (if starts_across(board, width, i) {
        1int
    } else {
        0int
    }) + (if starts_down(board, width, height, i) {
        1int
    } else {
        0int
    })
}

/// The number of clues that start in the cells below index `i`.
pub open spec fn starts_below(board: Seq<u8>, width: int, height: int, i: int) -> int
    decreases i,
{
    if i <= 0 {
        0
    } else {
        starts_below(board, width, height, i - 1) + starts_at(board, width, height, i - 1)
    }
}

/// The number of cells below index `i` in which a clue starts.
pub open spec fn numbered_below(board: Seq<u8>, width: int, height: int, i: int) -> int
    decreases i,
{
    if i <= 0 {
        0
    } else {
        numbered_below(board, width, height, i - 1) + (if starts_at(board, width, height, i - 1)
            > 0 {
            1int
        } else {
            0int
        })
    }
}

/// The symbols of the open cells `i`, `i + step`, `i + 2 * step` and so on,
/// up to the first cell that is not open, and `limit` cells at most.
pub open spec fn run(board: Seq<u8>, i: int, step: int, limit: int) -> Seq<u8>
    decreases limit,
{
    if limit <= 0 || !is_open(board, i) {
        Seq::empty()
    } else {
        seq![board[i]] + run(board, i + step, step, limit - 1)
    }
}

/// The cells of the across answer that starts in cell `i`: along the row,
/// to its end at most.
pub open spec fn across_cells(board: Seq<u8>, width: int, i: int) -> Seq<u8> {
    run(board, i, 1, width - i % width)
}

/// The cells of the down answer that starts in cell `i`: along the column,
/// to its end at most.
pub open spec fn down_cells(board: Seq<u8>, width: int, height: int, i: int) -> Seq<u8> {
    run(board, i, width, height - i / width)
}

/// The symbols of some cells as text: for each byte the character with
/// that code point.
pub open spec fn cells_text(cells: Seq<u8>) -> Seq<char> {
    Seq::new(cells.len(), |k: int| cells[k] as char)
}

/// The clue of orientation `orientation` that starts in cell `i` and is
/// printed as `text`.
pub open spec fn clue_at(
    board: Seq<u8>,
    width: int,
    height: int,
    i: int,
    orientation: ClueOrientation,
    text: Seq<char>,
) -> ClueView {
    let cells = match orientation {
        ClueOrientation::Across => across_cells(board, width, i),
        ClueOrientation::Down => down_cells(board, width, height, i),
    };
    ClueView {
        number: 1 + numbered_below(board, width, height, i),
        grid_index: i,
        text,
        answer: cells_text(cells),
        length: cells.len() as int,
        orientation,
    }
}

/// The clues that start in cell `i`, the across clue first, where `used`
/// texts went to the clues of earlier cells.
pub open spec fn cell_clues(
    board: Seq<u8>,
    width: int,
    height: int,
    texts: Seq<Seq<char>>,
    i: int,
    used: int,
) -> Seq<ClueView> {
    let across = if starts_across(board, width, i) {
        seq![clue_at(board, width, height, i, ClueOrientation::Across, texts[used])]
    } else {
        Seq::empty()
    };
    let down = if starts_down(board, width, height, i) {
        seq![clue_at(board, width, height, i, ClueOrientation::Down, texts[used + across.len()])]
    } else {
        Seq::empty()
    };
    across + down
}

/// The clues that start in the cells below index `i`, in row-major order of
/// their cells. The clue at position `k` of the list is printed as
/// `texts[k]`.
pub open spec fn clues_below(
    board: Seq<u8>,
    width: int,
    height: int,
    texts: Seq<Seq<char>>,
    i: int,
) -> Seq<ClueView>
    decreases i,
{
    if i <= 0 {
        Seq::empty()
    } else {
        let earlier = clues_below(board, width, height, texts, i - 1);
        earlier + cell_clues(board, width, height, texts, i - 1, earlier.len() as int)
    }
}

/// The clues of a grid: refused where a 16-bit index cannot number the
/// cells, and where the grid starts more clues than there are texts.
pub open spec fn clues_of(board: Seq<u8>, width: int, height: int, texts: Seq<Seq<char>>) -> Result<
    Seq<ClueView>,
    FormatError,
> {
    if width * height > MAX_CELLS {
        Err(FormatError::DimensionOverflow)
    } else if starts_below(board, width, height, width * height) > texts.len() {
        Err(FormatError::ClueTextUnderflow)
    } else {
        Ok(clues_below(board, width, height, texts, width * height))
    }
}

/// Each cell starts no clue, one or two, so the count of clues grows with
/// the index.
pub proof fn lemma_starts_below_grows(board: Seq<u8>, width: int, height: int, i: int, j: int)
    requires
        i <= j,
    ensures
        0 <= starts_below(board, width, height, i) <= starts_below(board, width, height, j),
    decreases j,
{
    if j <= 0 {
    } else if i == j {
        lemma_starts_below_grows(board, width, height, i - 1, j - 1);
    } else {
        lemma_starts_below_grows(board, width, height, i, j - 1);
    }
}

/// The count of numbered cells grows with the index, by one at most for
/// each cell.
pub proof fn lemma_numbered_below_grows(board: Seq<u8>, width: int, height: int, i: int, j: int)
    requires
        0 <= i <= j,
    ensures
        0 <= numbered_below(board, width, height, i) <= numbered_below(board, width, height, j),
        numbered_below(board, width, height, j) - numbered_below(board, width, height, i) <= j
            - i,
    decreases j,
{
    if j <= 0 {
    } else if i == j {
        lemma_numbered_below_grows(board, width, height, j - 1, j - 1);
    } else {
        lemma_numbered_below_grows(board, width, height, i, j - 1);
    }
}

/// The list of clues holds one clue for each start.
pub proof fn lemma_clues_below_len(
    board: Seq<u8>,
    width: int,
    height: int,
    texts: Seq<Seq<char>>,
    i: int,
)
    ensures
        clues_below(board, width, height, texts, i).len() == starts_below(board, width, height, i),
    decreases i,
{
    if i > 0 {
        lemma_clues_below_len(board, width, height, texts, i - 1);
    }
}

/// Reads the answer that starts in cell `first` and goes on in steps of
/// `step` cells: the symbols up to the first blocked cell, `limit` of them
/// at most, and their number.
fn read_run(board: &[u8], first: usize, step: usize, limit: u16) -> (r: (String, u16))
    requires
        limit > 0 ==> first + (limit - 1) * step < board.len(),
    ensures
        r.0@ == cells_text(run(board@, first as int, step as int, limit as int)),
        r.1 as int == run(board@, first as int, step as int, limit as int).len(),
{
    let mut text = String::new();
    let mut count: u16 = 0;
    let mut idx: usize = first;
    let ghost mut cells = Seq::<u8>::empty();
    while count < limit && board[idx] != BLOCKED_CELL
        invariant
            count <= limit,
            count < limit ==> idx + (limit - 1 - count) * step < board.len(),
            count < limit ==> idx == first + count * step,
            cells.len() == count,
            text@ == cells_text(cells),
            run(board@, first as int, step as int, limit as int) == cells + run(
                board@,
                first + count * step,
                step as int,
                limit - count,
            ),
        decreases limit - count,
    {
        let ghost here = first + count * step;
        assert(idx < board.len()) by (nonlinear_arith)
            requires
                idx + (limit - 1 - count) * step < board.len(),
                count < limit,
                0 <= step,
        ;
        let cell = board[idx];
        text.push(cell as char);
        proof {
            assert(run(board@, here, step as int, limit - count) == seq![cell] + run(
                board@,
                here + step,
                step as int,
                limit - count - 1,
            ));
            cells = cells.push(cell);
            assert(text@ =~= cells_text(cells));
            assert(here + step == first + (count + 1) * step) by (nonlinear_arith)
                requires
                    here == first + count * step,
            ;
        }
        count += 1;
        if count < limit {
            assert(idx + step + (limit - 1 - count) * step == idx + (limit - count) * step)
                by (nonlinear_arith);
            idx += step;
        }
    }
    (text, count)
}

/// Column `x` of row `y` has the index that the row-major order gives it,
/// and the cells to its right and below it follow at distance 1 and
/// `width`.
proof fn lemma_cell_position(width: int, height: int, i: int)
    requires
        0 < width,
        0 <= i < width * height,
    ensures
        0 <= i % width < width,
        0 <= i / width < height,
        (i / width) * width + i % width == i,
        (i / width + 1) * width + i % width == i + width,
        i / width > 0 ==> (i / width - 1) * width + i % width == i - width,
        i % width + 1 < width ==> i + 1 < width * height,
        i + (width - i % width - 1) < width * height,
        i / width + 1 < height ==> i + (height - i / width - 1) * width < width * height,
        i / width + 1 < height ==> i + width < width * height,
{
    let x = i % width;
    let y = i / width;
    vstd::arithmetic::div_mod::lemma_fundamental_div_mod(i, width);
    vstd::arithmetic::div_mod::lemma_mod_bound(i, width);
    assert(width * y == y * width) by (nonlinear_arith);
    assert(0 <= y) by (nonlinear_arith)
        requires
            y * width + x == i,
            0 <= i,
            0 <= x < width,
    ;
    assert(y < height) by (nonlinear_arith)
        requires
            y * width + x == i,
            i < width * height,
            0 <= x < width,
    ;
    assert((y + 1) * width == y * width + width) by (nonlinear_arith);
    assert((y - 1) * width == y * width - width) by (nonlinear_arith);
    assert((y + 1) * width <= height * width) by (nonlinear_arith)
        requires
            y + 1 <= height,
            0 < width,
    ;
    assert(height * width == width * height) by (nonlinear_arith);
    assert(y * width + (height - y - 1) * width == (height - 1) * width) by (nonlinear_arith);
    assert((height - 1) * width + width == height * width) by (nonlinear_arith);
    if y + 1 < height {
        assert((y + 1) * width <= (height - 1) * width) by (nonlinear_arith)
            requires
                y + 1 <= height - 1,
                0 < width,
        ;
    }
}

/// Walks the solution grid in row-major order and builds the clues: for
/// each cell that starts an answer the across clue, then the down clue,
/// numbered from 1 by cell and printed as the next unused text.
pub fn reconstruct_clues(board: &[u8], width: u16, height: u16, texts: &[String]) -> (r: Result<
    Vec<Clue>,
    FormatError,
>)
    requires
        board@.len() == width as int * height as int,
    ensures
        r matches Ok(clues) ==> clues_of(
            board@,
            width as int,
            height as int,
            texts.deep_view(),
        ) == Ok::<Seq<ClueView>, FormatError>(clue_views(clues@)),
        r matches Err(e) ==> clues_of(board@, width as int, height as int, texts.deep_view())
            == Err::<Seq<ClueView>, FormatError>(e),
        r matches Ok(clues) ==> well_formed_clues(
            clue_views(clues@),
            width as int * height as int,
        ),
{
    let cells = match cell_count(width, height) {
        Ok(cells) => cells,
        Err(e) => {
            return Err(e);
        },
    };
    let ghost grid = board@;
    let ghost w = width as int;
    let ghost h = height as int;
    let ghost printed = texts.deep_view();
    let mut clues: Vec<Clue> = Vec::new();
    let mut number: u16 = 1;
    let mut i: u16 = 0;
    while i < cells
        invariant
            grid == board@,
            w == width as int,
            h == height as int,
            printed == texts.deep_view(),
            grid.len() == w * h,
            cells as int == w * h,
            i <= cells,
            clue_views(clues@) == clues_below(grid, w, h, printed, i as int),
            clues@.len() <= texts@.len(),
            number as int == 1 + numbered_below(grid, w, h, i as int),
        decreases cells - i,
    {
        let ghost earlier = clue_views(clues@);
        proof {
            lemma_cell_position(w, h, i as int);
            lemma_numbered_below_grows(grid, w, h, 0, i as int);
            lemma_clues_below_len(grid, w, h, printed, i as int);
            lemma_clues_below_len(grid, w, h, printed, i + 1);
            lemma_starts_below_grows(grid, w, h, i + 1, w * h);
        }
        if board[i as usize] != BLOCKED_CELL {
            let (x, y) = i_xy(i, width);
            let mut starts_clue = false;
            if (x == 0 || board[xy_i(x - 1, y, width)] == BLOCKED_CELL) && x + 1 < width
                && board[xy_i(x + 1, y, width)] != BLOCKED_CELL {
                starts_clue = true;
                if clues.len() >= texts.len() {
                    return Err(FormatError::ClueTextUnderflow);
                }
                let (answer, length) = read_run(board, i as usize, 1, width - x);
                let text = texts[clues.len()].clone();
                clues.push(
                    Clue {
                        number,
                        grid_index: i,
                        text,
                        answer,
                        length,
                        orientation: ClueOrientation::Across,
                    },
                );
            }
            if (y == 0 || board[xy_i(x, y - 1, width)] == BLOCKED_CELL) && y + 1 < height
                && board[xy_i(x, y + 1, width)] != BLOCKED_CELL {
                starts_clue = true;
                if clues.len() >= texts.len() {
                    return Err(FormatError::ClueTextUnderflow);
                }
                let (answer, length) = read_run(board, i as usize, width as usize, height - y);
                let text = texts[clues.len()].clone();
                clues.push(
                    Clue {
                        number,
                        grid_index: i,
                        text,
                        answer,
                        length,
                        orientation: ClueOrientation::Down,
                    },
                );
            }
            if starts_clue {
                number += 1;
            }
        }
        assert(clue_views(clues@) =~= earlier + cell_clues(
            grid,
            w,
            h,
            printed,
            i as int,
            earlier.len() as int,
        ));
        i += 1;
    }
    proof {
        lemma_clues_below_len(grid, w, h, printed, w * h);
        lemma_clues_well_formed(grid, w, h, printed);
    }
    Ok(clues)
}

} // verus!
