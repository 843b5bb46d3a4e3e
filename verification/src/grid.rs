//! The two grids that follow the header, and the row-major numbering of
//! their cells.

use vstd::prelude::*;
use vstd::slice::slice_subrange;

use crate::error::FormatError;
use crate::error::Stage;

verus! {

/// The symbol of a cell that takes no letter.
pub const BLOCKED_CELL: u8 = 0x2e;

/// The largest number of cells that a 16-bit cell index can number.
pub const MAX_CELLS: u32 = 0xffff;

/// Column and row of the cell with index `i` in a grid `width` cells wide.
pub fn i_xy(i: u16, width: u16) -> (xy: (u16, u16))
    requires
        width > 0,
    ensures
        xy.0 as int == i as int % width as int,
        xy.1 as int == i as int / width as int,
{
    (i % width, i / width)
}

/// Index of the cell in column `x` of row `y` in a grid `width` cells wide.
pub fn xy_i(x: u16, y: u16, width: u16) -> (i: usize)
    ensures
        i as int == y as int * width as int + x as int,
{
    assert(y as int * width as int + x as int <= 0xffff * 0xffff + 0xffff) by (nonlinear_arith)
        requires
            0 <= x <= 0xffff,
            0 <= y <= 0xffff,
            0 <= width <= 0xffff,
    ;
    y as usize * width as usize + x as usize
}

/// The solution grid and the player grid of a puzzle whose header ends at
/// `header_end`: two runs of `width * height` bytes each, the second
/// directly behind the first.
pub open spec fn grids_at(bytes: Seq<u8>, header_end: int, width: int, height: int) -> Result<
    (Seq<u8>, Seq<u8>),
    FormatError,
> {
    let cells = width * height;
    if cells > MAX_CELLS {
        Err(FormatError::DimensionOverflow)
    } else if header_end + 2 * cells > bytes.len() {
        Err(FormatError::TruncatedInput(Stage::GridExtractor))
    } else {
        Ok(
            (
                bytes.subrange(header_end, header_end + cells),
                bytes.subrange(header_end + cells, header_end + 2 * cells),
            ),
        )
    }
}

/// The number of cells of a grid, where a 16-bit index can number them.
pub fn cell_count(width: u16, height: u16) -> (r: Result<u16, FormatError>)
    ensures
        r is Ok <==> width as int * height as int <= MAX_CELLS,
        r matches Ok(cells) ==> cells as int == width as int * height as int,
        r matches Err(e) ==> e == FormatError::DimensionOverflow,
{
    assert(width as int * height as int <= 0xffff * 0xffff) by (nonlinear_arith)
        requires
            0 <= width <= 0xffff,
            0 <= height <= 0xffff,
    ;
    let cells: u32 = width as u32 * height as u32;
    if cells > MAX_CELLS {
        Err(FormatError::DimensionOverflow)
    } else {
        Ok(cells as u16)
    }
}

/// Takes the solution grid and the player grid out of `bytes`, in that
/// order, without changing a byte.
pub fn extract_grids<'a>(bytes: &'a [u8], header_end: usize, width: u16, height: u16) -> (r:
    Result<(&'a [u8], &'a [u8]), FormatError>)
    ensures
        r matches Ok(grids) ==> grids_at(
            bytes@,
            header_end as int,
            width as int,
            height as int,
        ) == Ok::<(Seq<u8>, Seq<u8>), FormatError>((grids.0@, grids.1@)),
        r matches Err(e) ==> grids_at(bytes@, header_end as int, width as int, height as int)
            == Err::<(Seq<u8>, Seq<u8>), FormatError>(e),
        r matches Ok(grids) ==> grids.0@.len() == width as int * height as int && grids.1@.len()
            == width as int * height as int && grids.0@ + grids.1@ == bytes@.subrange(
            header_end as int,
            header_end as int + 2 * (width as int * height as int),
        ),
{
    let cells = match cell_count(width, height) {
        Ok(cells) => cells as usize,
        Err(e) => {
            return Err(e);
        },
    };
    let n = bytes.len();
    if header_end > n || 2 * cells > n - header_end {
        return Err(FormatError::TruncatedInput(Stage::GridExtractor));
    }
    let solution = slice_subrange(bytes, header_end, header_end + cells);
    let player = slice_subrange(bytes, header_end + cells, header_end + 2 * cells);
    Ok((solution, player))
}

} // verus!
