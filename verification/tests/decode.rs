use puz::parse;
use puz::Clue;
use puz::ClueOrientation;
use puz::FormatError;
use puz::Puzzle;
use puz::Stage;

const MARKER: &[u8] = b"ACROSS&DOWN\0";

fn header_bytes(width: u8, height: u8, clue_count: u16) -> Vec<u8> {
    let mut header = vec![0u8; 52];
    header[0] = 0x12;
    header[1] = 0x34;
    header[2..14].copy_from_slice(MARKER);
    header[24..28].copy_from_slice(b"1.3\0");
    header[44] = width;
    header[45] = height;
    header[46..48].copy_from_slice(&clue_count.to_le_bytes());
    header
}

fn string_table(entries: &[&str]) -> Vec<u8> {
    let mut bytes = Vec::new();
    for entry in entries {
        bytes.extend_from_slice(entry.as_bytes());
        bytes.push(0);
    }
    bytes
}

fn puzzle_file(
    prelude: &[u8],
    width: u8,
    height: u8,
    board: &[u8],
    player: &[u8],
    entries: &[&str],
) -> Vec<u8> {
    let mut bytes = prelude.to_vec();
    bytes.extend_from_slice(&header_bytes(width, height, 0));
    bytes.extend_from_slice(board);
    bytes.extend_from_slice(player);
    bytes.extend_from_slice(&string_table(entries));
    bytes
}

const THREE_BY_THREE: &[&str] = &[
    "Title", "Author", "Copyright", "first", "second", "third", "fourth", "Notes",
];

fn three_by_three(prelude: &[u8]) -> Vec<u8> {
    puzzle_file(prelude, 3, 3, b"ABCD.EFGH", b"----.----", THREE_BY_THREE)
}

fn clue(
    number: u16,
    grid_index: u16,
    orientation: ClueOrientation,
    text: &str,
    answer: &str,
) -> Clue {
    Clue {
        number,
        grid_index,
        text: text.to_string(),
        answer: answer.to_string(),
        length: answer.chars().count() as u16,
        orientation,
    }
}

fn prelude_of(len: usize) -> Vec<u8> {
    (0..len).map(|k| (k % 251) as u8).collect()
}

#[test]
fn three_by_three_grid_gives_four_clues() {
    let puzzle = parse(&three_by_three(&[])).unwrap();
    assert_eq!(
        puzzle.clues,
        vec![
            clue(1, 0, ClueOrientation::Across, "first", "ABC"),
            clue(1, 0, ClueOrientation::Down, "second", "ADF"),
            clue(2, 2, ClueOrientation::Down, "third", "CEH"),
            clue(3, 6, ClueOrientation::Across, "fourth", "FGH"),
        ]
    );
}

#[test]
fn three_by_three_grid_gives_the_whole_record() {
    let puzzle = parse(&three_by_three(&[])).unwrap();
    assert_eq!(puzzle.title, "Title");
    assert_eq!(puzzle.author, "Author");
    assert_eq!(puzzle.copyright, "Copyright");
    assert_eq!(puzzle.notes, "Notes");
    assert_eq!(puzzle.width, 3);
    assert_eq!(puzzle.height, 3);
    assert_eq!(puzzle.board, "ABCD.EFGH".chars().collect::<Vec<char>>());
    assert_eq!(puzzle.player_state, "----.----".chars().collect::<Vec<char>>());
    assert_eq!(puzzle.clues.len(), 4);
}

#[test]
fn prelude_does_not_change_the_puzzle() {
    let bare: Puzzle = parse(&three_by_three(&[])).unwrap();
    let prefixed: Puzzle = parse(&three_by_three(&prelude_of(1000))).unwrap();
    assert_eq!(bare, prefixed);
    assert_eq!(prefixed.clues.len(), 4);
    assert_eq!(prefixed.title, "Title");
}

#[test]
fn prelude_of_each_short_length_is_skipped() {
    let bare = parse(&three_by_three(&[])).unwrap();
    for len in 1..40 {
        assert_eq!(parse(&three_by_three(&prelude_of(len))).unwrap(), bare);
    }
}

#[test]
fn grids_have_width_times_height_cells() {
    let board = b"AB.CDEFG.HIJ";
    let player = b"ab.cdefg.hij";
    let bytes = puzzle_file(b"junk", 4, 3, board, player, &["t", "a", "c", "1", "2", "3", "4", "5", "6", "7", "n"]);
    let puzzle = parse(&bytes).unwrap();
    assert_eq!(puzzle.board.len(), 12);
    assert_eq!(puzzle.player_state.len(), 12);
    assert_eq!(puzzle.board.len(), puzzle.width as usize * puzzle.height as usize);
    assert_eq!(puzzle.board, "AB.CDEFG.HIJ".chars().collect::<Vec<char>>());
    assert_eq!(puzzle.player_state, "ab.cdefg.hij".chars().collect::<Vec<char>>());
    assert_eq!(puzzle.title, "t");
}

#[test]
fn answers_have_the_length_of_their_clue_and_no_blocked_cell() {
    let board = b"AB.CDEFG.HIJ";
    let bytes = puzzle_file(&[], 4, 3, board, board, &["t", "a", "c", "1", "2", "3", "4", "5", "6", "7", "n"]);
    let puzzle = parse(&bytes).unwrap();
    assert!(!puzzle.clues.is_empty());
    for clue in &puzzle.clues {
        assert_eq!(clue.answer.chars().count(), clue.length as usize);
        assert!(!clue.answer.contains('.'));
        assert!(clue.length >= 2);
    }
}

#[test]
fn four_by_three_grid_gives_its_clues() {
    // A B . C
    // D E F G
    // . H I J
    let board = b"AB.CDEFG.HIJ";
    let bytes = puzzle_file(&[], 4, 3, board, board, &["t", "a", "c", "1", "2", "3", "4", "5", "6", "7", "n"]);
    let puzzle = parse(&bytes).unwrap();
    assert_eq!(
        puzzle.clues,
        vec![
            clue(1, 0, ClueOrientation::Across, "1", "AB"),
            clue(1, 0, ClueOrientation::Down, "2", "AD"),
            clue(2, 1, ClueOrientation::Down, "3", "BEH"),
            clue(3, 3, ClueOrientation::Down, "4", "CGJ"),
            clue(4, 4, ClueOrientation::Across, "5", "DEFG"),
            clue(5, 6, ClueOrientation::Down, "6", "FI"),
            clue(6, 9, ClueOrientation::Across, "7", "HIJ"),
        ]
    );
}

#[test]
fn clue_numbers_run_from_one_without_a_gap() {
    let board = b"AB.CDEFG.HIJ";
    let bytes = puzzle_file(&[], 4, 3, board, board, &["t", "a", "c", "1", "2", "3", "4", "5", "6", "7", "8", "n"]);
    let puzzle = parse(&bytes).unwrap();
    assert_eq!(puzzle.clues[0].number, 1);
    for pair in puzzle.clues.windows(2) {
        if pair[0].grid_index == pair[1].grid_index {
            assert_eq!(pair[1].number, pair[0].number);
            assert_eq!(pair[0].orientation, ClueOrientation::Across);
            assert_eq!(pair[1].orientation, ClueOrientation::Down);
        } else {
            assert!(pair[0].grid_index < pair[1].grid_index);
            assert_eq!(pair[1].number, pair[0].number + 1);
        }
    }
    assert_eq!(puzzle.clues.last().unwrap().number, 6);
    assert_eq!(puzzle.clues.len(), 7);
}

#[test]
fn shortened_string_table_is_an_underflow() {
    let entries = &["Title", "Author", "Copyright", "first", "second", "third", "Notes"];
    let bytes = puzzle_file(&[], 3, 3, b"ABCD.EFGH", b"----.----", entries);
    assert_eq!(parse(&bytes), Err(FormatError::ClueTextUnderflow));
}

#[test]
fn string_table_without_clue_texts_is_an_underflow() {
    let bytes = puzzle_file(&[], 3, 3, b"ABCD.EFGH", b"----.----", &["t", "a", "c", "n"]);
    assert_eq!(parse(&bytes), Err(FormatError::ClueTextUnderflow));
}

#[test]
fn texts_are_consumed_in_order_and_the_rest_is_left() {
    let entries = &["t", "a", "c", "1", "2", "3", "4", "spare", "other", "n"];
    let bytes = puzzle_file(&[], 3, 3, b"ABCD.EFGH", b"----.----", entries);
    let puzzle = parse(&bytes).unwrap();
    let texts: Vec<&str> = puzzle.clues.iter().map(|c| c.text.as_str()).collect();
    assert_eq!(texts, vec!["1", "2", "3", "4"]);
    assert_eq!(puzzle.notes, "n");
}

#[test]
fn buffer_without_marker_is_marker_not_found() {
    assert_eq!(parse(&[0u8; 12]), Err(FormatError::MarkerNotFound));
    assert_eq!(parse(&[0x41u8; 500]), Err(FormatError::MarkerNotFound));
    assert_eq!(parse(b"..ACROSS&DOWN.and no terminator"), Err(FormatError::MarkerNotFound));
    assert_eq!(parse(&prelude_of(1000)), Err(FormatError::MarkerNotFound));
}

#[test]
fn buffer_shorter_than_the_marker_is_truncated() {
    assert_eq!(parse(&[]), Err(FormatError::TruncatedInput(Stage::HeaderLocator)));
    assert_eq!(parse(b"ACROSS&DOWN"), Err(FormatError::TruncatedInput(Stage::HeaderLocator)));
    assert_eq!(parse(&[0u8; 11]), Err(FormatError::TruncatedInput(Stage::HeaderLocator)));
}

#[test]
fn marker_without_two_bytes_before_it_is_truncated() {
    let whole = three_by_three(&[]);
    assert_eq!(parse(&whole[2..]), Err(FormatError::TruncatedInput(Stage::HeaderLocator)));
    assert_eq!(parse(&whole[1..]), Err(FormatError::TruncatedInput(Stage::HeaderLocator)));
    assert!(parse(&whole[0..]).is_ok());
}

#[test]
fn header_cut_short_is_truncated() {
    let whole = three_by_three(b"xyz");
    assert_eq!(parse(&whole[..3 + 14]), Err(FormatError::TruncatedInput(Stage::HeaderDecoder)));
    assert_eq!(parse(&whole[..3 + 51]), Err(FormatError::TruncatedInput(Stage::HeaderDecoder)));
}

#[test]
fn version_that_is_not_utf8_is_refused() {
    let mut bytes = three_by_three(b"xyz");
    bytes[3 + 25] = 0xff;
    assert_eq!(parse(&bytes), Err(FormatError::InvalidVersionText));
}

#[test]
fn invalid_version_comes_before_truncated_grids() {
    let mut bytes = three_by_three(&[]);
    bytes[24] = 0xc3;
    bytes[25] = 0x28;
    assert_eq!(parse(&bytes[..52]), Err(FormatError::InvalidVersionText));
}

#[test]
fn grids_cut_short_are_truncated() {
    let whole = three_by_three(b"xyz");
    assert_eq!(parse(&whole[..3 + 52]), Err(FormatError::TruncatedInput(Stage::GridExtractor)));
    assert_eq!(parse(&whole[..3 + 52 + 17]), Err(FormatError::TruncatedInput(Stage::GridExtractor)));
}

#[test]
fn fewer_than_three_strings_are_truncated() {
    let whole = three_by_three(&[]);
    assert_eq!(parse(&whole[..52 + 18]), Err(FormatError::TruncatedInput(Stage::StringTable)));
    let two = puzzle_file(&[], 3, 3, b"ABCD.EFGH", b"----.----", &["Title", "Author"]);
    assert_eq!(parse(&two), Err(FormatError::TruncatedInput(Stage::StringTable)));
    let mut unterminated = two.clone();
    unterminated.extend_from_slice(b"Copyright");
    assert_eq!(parse(&unterminated), Err(FormatError::TruncatedInput(Stage::StringTable)));
}

#[test]
fn largest_grid_of_a_header_is_no_overflow() {
    let cells = vec![b'.'; 255 * 255];
    let mut bytes = header_bytes(255, 255, 0);
    bytes.extend_from_slice(&cells);
    bytes.extend_from_slice(&cells);
    bytes.extend_from_slice(&string_table(&["t", "a", "c", "n"]));
    let puzzle = parse(&bytes).unwrap();
    assert_eq!(puzzle.board.len(), 65025);
    assert_eq!(puzzle.width, 255);
    assert_eq!(puzzle.height, 255);
    assert!(puzzle.clues.is_empty());
}

#[test]
fn largest_open_grid_numbers_its_clues() {
    let cells = vec![b'A'; 255 * 255];
    let mut bytes = header_bytes(255, 255, 0);
    bytes.extend_from_slice(&cells);
    bytes.extend_from_slice(&cells);
    let mut entries = vec!["t", "a", "c"];
    entries.extend(std::iter::repeat("x").take(510));
    entries.push("n");
    bytes.extend_from_slice(&string_table(&entries));
    let puzzle = parse(&bytes).unwrap();
    assert_eq!(puzzle.clues.len(), 510);
    assert_eq!(puzzle.clues[0].number, 1);
    assert_eq!(puzzle.clues[1].number, 1);
    assert_eq!(puzzle.clues[255].number, 255);
    assert_eq!(puzzle.clues[255].grid_index, 254);
    assert_eq!(puzzle.clues[256].number, 256);
    assert_eq!(puzzle.clues[256].grid_index, 255);
    assert_eq!(puzzle.clues[256].orientation, ClueOrientation::Across);
    assert_eq!(puzzle.clues[256].length, 255);
    assert_eq!(puzzle.clues[509].number, 509);
    assert_eq!(puzzle.clues[509].grid_index, 254 * 255);
}

#[test]
fn empty_grid_has_no_clues() {
    let bytes = puzzle_file(&[], 0, 0, b"", b"", &["t", "a", "c", "n"]);
    let puzzle = parse(&bytes).unwrap();
    assert!(puzzle.board.is_empty());
    assert!(puzzle.player_state.is_empty());
    assert!(puzzle.clues.is_empty());
    assert_eq!(puzzle.notes, "n");
}

#[test]
fn grid_of_width_zero_has_no_cells() {
    let bytes = puzzle_file(&[], 0, 7, b"", b"", &["t", "a", "c", "n"]);
    let puzzle = parse(&bytes).unwrap();
    assert_eq!(puzzle.width, 0);
    assert_eq!(puzzle.height, 7);
    assert!(puzzle.board.is_empty());
    assert!(puzzle.clues.is_empty());
}

#[test]
fn three_strings_give_the_last_one_as_notes() {
    let bytes = puzzle_file(&[], 1, 1, b"A", b"-", &["t", "a", "c"]);
    let puzzle = parse(&bytes).unwrap();
    assert_eq!(puzzle.copyright, "c");
    assert_eq!(puzzle.notes, "c");
    assert!(puzzle.clues.is_empty());
}

#[test]
fn bytes_after_the_last_terminator_are_no_entry() {
    let mut bytes = puzzle_file(&[], 1, 1, b"A", b"-", &["t", "a", "c", "n"]);
    bytes.extend_from_slice(b"dangling");
    assert_eq!(parse(&bytes).unwrap().notes, "n");
}

#[test]
fn entry_that_is_not_utf8_becomes_empty() {
    let mut bytes = puzzle_file(&[], 3, 3, b"ABCD.EFGH", b"----.----", &[]);
    bytes.extend_from_slice(b"Title\0");
    bytes.extend_from_slice(&[0xff, 0xfe, 0]);
    bytes.extend_from_slice(b"Copyright\0first\0");
    bytes.extend_from_slice(&[0xc3, 0x28, 0]);
    bytes.extend_from_slice(b"third\0fourth\0Notes\0");
    let puzzle = parse(&bytes).unwrap();
    assert_eq!(puzzle.title, "Title");
    assert_eq!(puzzle.author, "");
    assert_eq!(puzzle.copyright, "Copyright");
    assert_eq!(puzzle.clues[0].text, "first");
    assert_eq!(puzzle.clues[1].text, "");
    assert_eq!(puzzle.clues[2].text, "third");
    assert_eq!(puzzle.clues[3].text, "fourth");
    assert_eq!(puzzle.notes, "Notes");
}

#[test]
fn entries_are_decoded_as_utf8() {
    let entries = &["Mot\u{e9}", "\u{65e5}\u{672c}", "\u{a9} 2024", "\u{1f600}"];
    let bytes = puzzle_file(&[], 1, 1, b"A", b"-", entries);
    let puzzle = parse(&bytes).unwrap();
    assert_eq!(puzzle.title, "Mot\u{e9}");
    assert_eq!(puzzle.title.chars().count(), 4);
    assert_eq!(puzzle.author, "\u{65e5}\u{672c}");
    assert_eq!(puzzle.copyright, "\u{a9} 2024");
    assert_eq!(puzzle.notes, "\u{1f600}");
}

#[test]
fn cells_become_the_characters_of_their_code_points() {
    let board = [0xc9u8, 0x41, 0xff, 0x2e];
    let bytes = puzzle_file(&[], 2, 2, &board, &board, &["t", "a", "c", "1", "2", "3", "n"]);
    let puzzle = parse(&bytes).unwrap();
    assert_eq!(puzzle.board, vec!['\u{c9}', 'A', '\u{ff}', '.']);
    assert_eq!(
        puzzle.clues,
        vec![
            clue(1, 0, ClueOrientation::Across, "1", "\u{c9}A"),
            clue(1, 0, ClueOrientation::Down, "2", "\u{c9}\u{ff}"),
        ]
    );
}

#[test]
fn first_marker_decides_where_the_header_starts() {
    let inner = three_by_three(&[]);
    let mut bytes = b"..ACROSS&DOWN\0".to_vec();
    bytes.extend_from_slice(&inner[..30]);
    assert_eq!(parse(&bytes), Err(FormatError::TruncatedInput(Stage::HeaderDecoder)));
    let mut early = header_bytes(1, 1, 0);
    early.extend_from_slice(b"A-t\0a\0c\0n\0");
    early.extend_from_slice(&inner);
    let puzzle = parse(&early).unwrap();
    assert_eq!(puzzle.width, 1);
    assert_eq!(puzzle.title, "t");
}

#[test]
fn single_row_has_across_clues_only() {
    let bytes = puzzle_file(&[], 5, 1, b"AB.CD", b"-----", &["t", "a", "c", "1", "2", "n"]);
    let puzzle = parse(&bytes).unwrap();
    assert_eq!(
        puzzle.clues,
        vec![
            clue(1, 0, ClueOrientation::Across, "1", "AB"),
            clue(2, 3, ClueOrientation::Across, "2", "CD"),
        ]
    );
}

#[test]
fn single_column_has_down_clues_only() {
    let bytes = puzzle_file(&[], 1, 5, b"AB.CD", b"-----", &["t", "a", "c", "1", "2", "n"]);
    let puzzle = parse(&bytes).unwrap();
    assert_eq!(
        puzzle.clues,
        vec![
            clue(1, 0, ClueOrientation::Down, "1", "AB"),
            clue(2, 3, ClueOrientation::Down, "2", "CD"),
        ]
    );
}

#[test]
fn lone_open_cells_start_no_clue() {
    let bytes = puzzle_file(&[], 3, 3, b"A.B.C.D.E", b"---------", &["t", "a", "c", "n"]);
    let puzzle = parse(&bytes).unwrap();
    assert!(puzzle.clues.is_empty());
}

#[test]
fn errors_say_which_stage_failed() {
    assert_eq!(
        FormatError::MarkerNotFound.describe(),
        "header locator: no ACROSS&DOWN marker in the file"
    );
    assert_eq!(
        FormatError::TruncatedInput(Stage::HeaderLocator).describe(),
        "header locator: the file is shorter than the marker and the two bytes before it"
    );
    assert_eq!(
        FormatError::TruncatedInput(Stage::HeaderDecoder).describe(),
        "header decoder: fewer than 52 bytes from the start of the header"
    );
    assert_eq!(
        FormatError::TruncatedInput(Stage::GridExtractor).describe(),
        "grid extractor: the file ends before the end of the two grids"
    );
    assert_eq!(
        FormatError::TruncatedInput(Stage::StringTable).describe(),
        "string table: fewer than three entries for title, author and copyright"
    );
    assert_eq!(
        FormatError::InvalidVersionText.describe(),
        "header decoder: the version is not valid UTF-8"
    );
    assert_eq!(
        FormatError::ClueTextUnderflow.describe(),
        "clue reconstructor: the grid starts more clues than the string table has texts"
    );
    assert_eq!(
        FormatError::DimensionOverflow.describe(),
        "grid: width times height is more than 65535 cells"
    );
}
