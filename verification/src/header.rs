//! Finding the header in a buffer and reading its fixed fields.

use vstd::prelude::*;
use vstd::slice::slice_subrange;
use vstd::slice::slice_to_vec;
use vstd::utf8::decode_utf8;
use vstd::utf8::valid_utf8;

use crate::error::FormatError;
use crate::error::Stage;

verus! {

/// The bytes `ACROSS&DOWN` and a terminating NUL.
pub const MARKER: [u8; 12] = [
    0x41, 0x43, 0x52, 0x4f, 0x53, 0x53, 0x26, 0x44, 0x4f, 0x57, 0x4e, 0x00,
];

/// Length of the marker in bytes.
pub const MARKER_LEN: usize = 12;

/// Bytes of the header that stand before the marker.
pub const MARKER_OFFSET: usize = 2;

/// Length of the header in bytes.
pub const HEADER_LEN: usize = 52;

/// The marker stands in `bytes` at position `pos`.
pub open spec fn marker_at(bytes: Seq<u8>, pos: int) -> bool {
    &&& 0 <= pos
    &&& pos + 12 <= bytes.len()
    &&& bytes.subrange(pos, pos + 12) == MARKER@
}

/// The marker stands at `pos` and at no earlier position.
pub open spec fn first_marker_at(bytes: Seq<u8>, pos: int) -> bool {
    &&& marker_at(bytes, pos)
    &&& forall|q: int| 0 <= q < pos ==> !marker_at(bytes, q)
}

/// The marker stands somewhere in `bytes`.
pub open spec fn has_marker(bytes: Seq<u8>) -> bool {
    exists|pos: int| marker_at(bytes, pos)
}

/// The first position of the marker, where there is one.
pub open spec fn first_marker(bytes: Seq<u8>) -> int {
    choose|pos: int| first_marker_at(bytes, pos)
}

/// Where the header starts: two bytes before the first marker.
///
/// A buffer too short to hold the marker is truncated, and so is one whose
/// first marker has fewer than two bytes before it.
pub open spec fn header_start(bytes: Seq<u8>) -> Result<int, FormatError> {
    if bytes.len() < 12 {
        Err(FormatError::TruncatedInput(Stage::HeaderLocator))
    } else if !has_marker(bytes) {
        Err(FormatError::MarkerNotFound)
    } else if first_marker(bytes) < 2 {
        Err(FormatError::TruncatedInput(Stage::HeaderLocator))
    } else {
        Ok(first_marker(bytes) - 2)
    }
}

/// A first position of the marker is the first position.
pub proof fn lemma_first_marker_unique(bytes: Seq<u8>, pos: int)
    requires
        first_marker_at(bytes, pos),
    ensures
        has_marker(bytes),
        first_marker(bytes) == pos,
{
    let chosen = first_marker(bytes);
    if chosen < pos {
    } else if pos < chosen {
    }
}

/// Where there is a marker, there is a first one.
pub proof fn lemma_first_marker_exists(bytes: Seq<u8>)
    requires
        has_marker(bytes),
    ensures
        first_marker_at(bytes, first_marker(bytes)),
{
    let some = choose|pos: int| marker_at(bytes, pos);
    lemma_marker_before(bytes, some, some);
}

/// Below a position that holds the marker there is a first position.
proof fn lemma_marker_before(bytes: Seq<u8>, pos: int, bound: int)
    requires
        marker_at(bytes, pos),
        0 <= bound <= pos,
        forall|q: int| bound <= q < pos ==> !marker_at(bytes, q),
    ensures
        exists|first: int| first_marker_at(bytes, first),
    decreases bound,
{
    if bound == 0 {
        assert(first_marker_at(bytes, pos));
    } else if marker_at(bytes, bound - 1) {
        lemma_marker_before(bytes, bound - 1, bound - 1);
    } else {
        lemma_marker_before(bytes, pos, bound - 1);
    }
}

/// A header is found exactly where the buffer holds the marker with two
/// bytes or more before its first position, and it starts two bytes before
/// that position. The marker is missed exactly where a buffer of twelve
/// bytes or more holds it nowhere.
pub proof fn lemma_header_start(bytes: Seq<u8>)
    ensures
        header_start(bytes) is Ok <==> exists|pos: int| pos >= 2 && first_marker_at(bytes, pos),
        header_start(bytes) matches Ok(start) ==> start >= 0 && first_marker_at(bytes, start + 2),
        header_start(bytes) == Err::<int, FormatError>(FormatError::MarkerNotFound)
            <==> bytes.len() >= 12 && !has_marker(bytes),
{
    if has_marker(bytes) {
        lemma_first_marker_exists(bytes);
    }
    if exists|pos: int| pos >= 2 && first_marker_at(bytes, pos) {
        let pos = choose|pos: int| pos >= 2 && first_marker_at(bytes, pos);
        lemma_first_marker_unique(bytes, pos);
    }
}

/// Tells whether the marker stands at `pos`.
fn marker_here(bytes: &[u8], pos: usize) -> (found: bool)
    requires
        pos + 12 <= bytes.len(),
    ensures
        found == marker_at(bytes@, pos as int),
{
    let mut k: usize = 0;
    while k < MARKER_LEN
        invariant
            k <= 12,
            pos + 12 <= bytes.len(),
            forall|j: int| 0 <= j < k ==> bytes@[pos + j] == MARKER@[j],
        decreases 12 - k,
    {
        if bytes[pos + k] != MARKER[k] {
            return false;
        }
        k += 1;
    }
    assert(bytes@.subrange(pos as int, pos + 12) =~= MARKER@);
    true
}

/// Scans `bytes` from position 0 for the marker and gives the position at
/// which the header starts.
pub fn locate_header(bytes: &[u8]) -> (r: Result<usize, FormatError>)
    ensures
        r matches Ok(start) ==> header_start(bytes@) == Ok::<int, FormatError>(start as int),
        r matches Err(e) ==> header_start(bytes@) == Err::<int, FormatError>(e),
        r matches Ok(start) ==> first_marker_at(bytes@, start + 2),
        r == Err::<usize, FormatError>(FormatError::MarkerNotFound) <==> bytes@.len() >= 12
            && !has_marker(bytes@),
{
    let n = bytes.len();
    if n < MARKER_LEN {
        return Err(FormatError::TruncatedInput(Stage::HeaderLocator));
    }
    let last = n - MARKER_LEN;
    let mut pos: usize = 0;
    while pos <= last
        invariant
            n == bytes.len(),
            last == n - 12,
            pos <= last + 1,
            forall|q: int| 0 <= q < pos ==> !marker_at(bytes@, q),
        decreases last + 1 - pos,
    {
        if marker_here(bytes, pos) {
            proof {
                lemma_first_marker_unique(bytes@, pos as int);
            }
            if pos < MARKER_OFFSET {
                return Err(FormatError::TruncatedInput(Stage::HeaderLocator));
            }
            return Ok(pos - MARKER_OFFSET);
        }
        pos += 1;
    }
    Err(FormatError::MarkerNotFound)
}

/// The fixed-size record at the start of a puzzle. Only the version, the
/// dimensions and the clue count are read as values; the other fields are
/// kept as the bytes found.
#[derive(Debug, Clone, PartialEq, Eq)]
pub struct RawHeader {
    /// Bytes 0 and 1: the overall checksum.
    pub checksum: Vec<u8>,
    /// Bytes 2 to 13: the marker.
    pub magic: Vec<u8>,
    /// Bytes 14 and 15: the checksum of the dimensions block.
    pub cib_checksum: Vec<u8>,
    /// Bytes 16 to 19: the first segment of the masked checksums.
    pub masked_low_checksum: Vec<u8>,
    /// Bytes 20 to 23: the second segment of the masked checksums.
    pub masked_high_checksum: Vec<u8>,
    /// Bytes 24 to 27, decoded as UTF-8.
    pub version: String,
    /// Bytes 28 and 29.
    pub reserved: Vec<u8>,
    /// Bytes 30 and 31: the third segment of the masked checksums, that of
    /// the solution.
    pub masked_solution_checksum: Vec<u8>,
    /// Bytes 32 to 43: the checksum region of a scrambled solution.
    pub scrambled_checksum: Vec<u8>,
    /// Byte 44: the number of columns.
    pub width: u8,
    /// Byte 45: the number of rows.
    pub height: u8,
    /// Bytes 46 and 47, little-endian: the number of clues the file claims.
    pub clue_count: u16,
    /// Bytes 48 and 49.
    pub unknown_bitmask: Vec<u8>,
    /// Bytes 50 and 51: tells whether the solution is scrambled.
    pub scrambled_tag: Vec<u8>,
}

/// What a [`RawHeader`] holds, as mathematical values.
pub ghost struct RawHeaderView {
    pub checksum: Seq<u8>,
    pub magic: Seq<u8>,
    pub cib_checksum: Seq<u8>,
    pub masked_low_checksum: Seq<u8>,
    pub masked_high_checksum: Seq<u8>,
    pub version: Seq<char>,
    pub reserved: Seq<u8>,
    pub masked_solution_checksum: Seq<u8>,
    pub scrambled_checksum: Seq<u8>,
    pub width: int,
    pub height: int,
    pub clue_count: int,
    pub unknown_bitmask: Seq<u8>,
    pub scrambled_tag: Seq<u8>,
}

impl View for RawHeader {
    type V = RawHeaderView;

    open spec fn view(&self) -> RawHeaderView {
        RawHeaderView {
            checksum: self.checksum@,
            magic: self.magic@,
            cib_checksum: self.cib_checksum@,
            masked_low_checksum: self.masked_low_checksum@,
            masked_high_checksum: self.masked_high_checksum@,
            version: self.version@,
            reserved: self.reserved@,
            masked_solution_checksum: self.masked_solution_checksum@,
            scrambled_checksum: self.scrambled_checksum@,
            width: self.width as int,
            height: self.height as int,
            clue_count: self.clue_count as int,
            unknown_bitmask: self.unknown_bitmask@,
            scrambled_tag: self.scrambled_tag@,
        }
    }
}

impl RawHeaderView {
    /// The marker stands in its field, each field kept as bytes has the
    /// length that the layout gives it, and the numbers fit their fields.
    pub open spec fn well_formed(self) -> bool {
        &&& self.checksum.len() == 2
        &&& self.magic == MARKER@
        &&& self.cib_checksum.len() == 2
        &&& self.masked_low_checksum.len() == 4
        &&& self.masked_high_checksum.len() == 4
        &&& self.reserved.len() == 2
        &&& self.masked_solution_checksum.len() == 2
        &&& self.scrambled_checksum.len() == 12
        &&& 0 <= self.width <= 255
        &&& 0 <= self.height <= 255
        &&& 0 <= self.clue_count <= 65535
        &&& self.unknown_bitmask.len() == 2
        &&& self.scrambled_tag.len() == 2
    }
}

/// The unsigned number that two bytes spell, low byte first.
pub open spec fn le_u16(low: u8, high: u8) -> int {
    low as int + 256 * (high as int)
}

/// The fields of a header, read from its 52 bytes.
pub open spec fn header_fields(header: Seq<u8>) -> RawHeaderView {
    RawHeaderView {
        checksum: header.subrange(0, 2),
        magic: header.subrange(2, 14),
        cib_checksum: header.subrange(14, 16),
        masked_low_checksum: header.subrange(16, 20),
        masked_high_checksum: header.subrange(20, 24),
        version: decode_utf8(header.subrange(24, 28)),
        reserved: header.subrange(28, 30),
        masked_solution_checksum: header.subrange(30, 32),
        scrambled_checksum: header.subrange(32, 44),
        width: header[44] as int,
        height: header[45] as int,
        clue_count: le_u16(header[46], header[47]),
        unknown_bitmask: header.subrange(48, 50),
        scrambled_tag: header.subrange(50, 52),
    }
}

/// The header that starts at `offset`: truncated where fewer than 52 bytes
/// follow, refused where the marker does not stand two bytes into it, and
/// where the version bytes are not valid UTF-8.
pub open spec fn header_at(bytes: Seq<u8>, offset: int) -> Result<RawHeaderView, FormatError> {
    if offset + 52 > bytes.len() {
        Err(FormatError::TruncatedInput(Stage::HeaderDecoder))
    } else if !marker_at(bytes, offset + 2) {
        Err(FormatError::MarkerNotFound)
    } else if !valid_utf8(bytes.subrange(offset, offset + 52).subrange(24, 28)) {
        Err(FormatError::InvalidVersionText)
    } else {
        Ok(header_fields(bytes.subrange(offset, offset + 52)))
    }
}

/// Copies the bytes from `from` up to `to`.
fn copy_span(bytes: &[u8], from: usize, to: usize) -> (span: Vec<u8>)
    requires
        from <= to <= bytes.len(),
    ensures
        span@ == bytes@.subrange(from as int, to as int),
{
    slice_to_vec(slice_subrange(bytes, from, to))
}

/// Reads two bytes as an unsigned number, low byte first.
fn read_le_u16(low: u8, high: u8) -> (value: u16)
    ensures
        value as int == le_u16(low, high),
{
    let low_part: u16 = low as u16;
    let high_part: u16 = high as u16;
    low_part + 256 * high_part
}

/// Reads the header that starts at `offset`.
pub fn decode_header(bytes: &[u8], offset: usize) -> (r: Result<RawHeader, FormatError>)
    ensures
        r matches Ok(header) ==> header_at(bytes@, offset as int) == Ok::<
            RawHeaderView,
            FormatError,
        >(header@),
        r matches Err(e) ==> header_at(bytes@, offset as int) == Err::<RawHeaderView, FormatError>(
            e,
        ),
        r matches Ok(header) ==> header@.well_formed(),
{
    let n = bytes.len();
    if n < HEADER_LEN || offset > n - HEADER_LEN {
        return Err(FormatError::TruncatedInput(Stage::HeaderDecoder));
    }
    if !marker_here(bytes, offset + MARKER_OFFSET) {
        return Err(FormatError::MarkerNotFound);
    }
    let header = slice_subrange(bytes, offset, offset + HEADER_LEN);
    assert(header@.subrange(2, 14) =~= bytes@.subrange(offset + 2, offset + 14));
    let version = match core::str::from_utf8(slice_subrange(header, 24, 28)) {
        Ok(text) => text.to_owned(),
        Err(_) => {
            return Err(FormatError::InvalidVersionText);
        },
    };
    Ok(
        RawHeader {
            checksum: copy_span(header, 0, 2),
            magic: copy_span(header, 2, 14),
            cib_checksum: copy_span(header, 14, 16),
            masked_low_checksum: copy_span(header, 16, 20),
            masked_high_checksum: copy_span(header, 20, 24),
            version,
            reserved: copy_span(header, 28, 30),
            masked_solution_checksum: copy_span(header, 30, 32),
            scrambled_checksum: copy_span(header, 32, 44),
            width: header[44],
            height: header[45],
            clue_count: read_le_u16(header[46], header[47]),
            unknown_bitmask: copy_span(header, 48, 50),
            scrambled_tag: copy_span(header, 50, 52),
        },
    )
}

} // verus!
