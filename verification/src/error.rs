//! The failures of the decoder.

use vstd::prelude::*;

verus! {

/// The stages of the decoder at which a buffer can turn out too short.
#[derive(Debug, Clone, Copy, PartialEq, Eq, Structural)]
pub enum Stage {
    /// The search for the marker.
    HeaderLocator,
    /// The reading of the 52 header bytes.
    HeaderDecoder,
    /// The taking of the two grids.
    GridExtractor,
    /// The reading of title, author and copyright.
    StringTable,
}

/// The ways in which a byte buffer can fail to be a puzzle file.
#[derive(Debug, Clone, Copy, PartialEq, Eq, Structural)]
pub enum FormatError {
    /// The buffer is long enough for the marker and holds it nowhere.
    MarkerNotFound,
    /// The buffer is shorter than a field needs that the stage reads.
    TruncatedInput(Stage),
    /// The four version bytes of the header are not valid UTF-8.
    InvalidVersionText,
    /// The grid starts more clues than the string table has clue texts.
    ClueTextUnderflow,
    /// Width times height is more than a 16-bit cell index can number.
    DimensionOverflow,
}

impl FormatError {
    /// What the error says of the file, in words.
    pub open spec fn message(self) -> Seq<char> {
        match self {
            FormatError::MarkerNotFound => "header locator: no ACROSS&DOWN marker in the file"@,
            FormatError::TruncatedInput(Stage::HeaderLocator) => "header locator: the file is shorter than the marker and the two bytes before it"@,
            FormatError::TruncatedInput(Stage::HeaderDecoder) => "header decoder: fewer than 52 bytes from the start of the header"@,
            FormatError::TruncatedInput(Stage::GridExtractor) => "grid extractor: the file ends before the end of the two grids"@,
            FormatError::TruncatedInput(Stage::StringTable) => "string table: fewer than three entries for title, author and copyright"@,
            FormatError::InvalidVersionText => "header decoder: the version is not valid UTF-8"@,
            FormatError::ClueTextUnderflow => "clue reconstructor: the grid starts more clues than the string table has texts"@,
            FormatError::DimensionOverflow => "grid: width times height is more than 65535 cells"@,
        }
    }

    /// Says in words which stage failed and what it expected.
    pub fn describe(&self) -> (text: String)
        ensures
            text@ == self.message(),
    {
        match self {
            FormatError::MarkerNotFound => "header locator: no ACROSS&DOWN marker in the file".to_owned(),
            FormatError::TruncatedInput(Stage::HeaderLocator) => "header locator: the file is shorter than the marker and the two bytes before it".to_owned(),
            FormatError::TruncatedInput(Stage::HeaderDecoder) => "header decoder: fewer than 52 bytes from the start of the header".to_owned(),
            FormatError::TruncatedInput(Stage::GridExtractor) => "grid extractor: the file ends before the end of the two grids".to_owned(),
            FormatError::TruncatedInput(Stage::StringTable) => "string table: fewer than three entries for title, author and copyright".to_owned(),
            FormatError::InvalidVersionText => "header decoder: the version is not valid UTF-8".to_owned(),
            FormatError::ClueTextUnderflow => "clue reconstructor: the grid starts more clues than the string table has texts".to_owned(),
            FormatError::DimensionOverflow => "grid: width times height is more than 65535 cells".to_owned(),
        }
    }
}

} // verus!
