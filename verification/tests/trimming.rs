use grid_ui::grid::{Alignment, DividerStrategy, Frame};
use grid_ui::out::OutToString;
use grid_ui::prelude::Handler;
use grid_ui::trim::{FormatError, Ignore, Split, TrimStrategy, Truncate, TrimmedText};

#[test]
fn ignore_passes_text_through_verbatim() {
    let grid = Frame::new(0, 0, 10, 3).next_frame();
    let process = grid.into_process(DividerStrategy::Beginning);
    let v = Ignore.trim("small".to_string(), &process, Alignment::Plus);
    assert_eq!(vec![TrimmedText("small".to_string())], v);
    let v = Ignore.trim("This fits.".to_string(), &process, Alignment::Plus);
    assert_eq!(vec![TrimmedText("This fits.".to_string())], v);
    let v = Ignore.trim(
        "This is a really long line that will break things in a terminal setup.".to_string(),
        &process,
        Alignment::Plus,
    );
    assert_eq!(
        vec![TrimmedText(
            "This is a really long line that will break things in a terminal setup.".to_string()
        )],
        v
    );
}

#[test]
fn ignore_back_unwraps_the_line() {
    let grid = Frame::new(0, 0, 10, 3).next_frame();
    let process = grid.into_process(DividerStrategy::Beginning);
    let s = Ignore.back(vec![TrimmedText("hello".to_string())], &process, Alignment::Plus);
    assert_eq!(s, "hello".to_string());
}

#[test]
fn truncate_pads_and_cuts_to_the_width() {
    let grid = Frame::new(0, 0, 10, 3).next_frame();
    let process = grid.into_process(DividerStrategy::Beginning);
    let v = Truncate.trim("small".to_string(), &process, Alignment::Plus);
    assert_eq!(vec![TrimmedText("small     ".to_string())], v);
    let v = Truncate.trim("This fits.".to_string(), &process, Alignment::Plus);
    assert_eq!(vec![TrimmedText("This fits.".to_string())], v);
    let v = Truncate.trim(
        "This is a really long line that will break things in a terminal setup.".to_string(),
        &process,
        Alignment::Plus,
    );
    assert_eq!(vec![TrimmedText("This is a ".to_string())], v);
}

#[test]
fn truncate_counts_graphemes_not_code_points() {
    // "e" followed by a combining acute accent is one user-perceived
    // character: three graphemes fill a width-three section exactly.
    let grid = Frame::new(0, 0, 3, 1).next_frame();
    let process = grid.into_process(DividerStrategy::Beginning);
    let v = Truncate.trim("e\u{301}xyz".to_string(), &process, Alignment::Plus);
    assert_eq!(vec![TrimmedText("e\u{301}xy".to_string())], v);
    let v = Truncate.trim("e\u{301}".to_string(), &process, Alignment::Plus);
    assert_eq!(vec![TrimmedText("e\u{301}  ".to_string())], v);
}

#[test]
fn split_cuts_into_width_exact_chunks() {
    let grid = Frame::new(0, 0, 10, 3).next_frame();
    let process = grid.into_process(DividerStrategy::Beginning);
    let v = Split.trim("small".to_string(), &process, Alignment::Plus);
    assert_eq!(vec![TrimmedText("small     ".to_string())], v);
    let v = Split.trim("This fits.".to_string(), &process, Alignment::Plus);
    assert_eq!(vec![TrimmedText("This fits.".to_string())], v);
    let v = Split.trim("This is a little too big..".to_string(), &process, Alignment::Plus);
    assert_eq!(
        vec![
            TrimmedText("This is a ".to_string()),
            TrimmedText("little too".to_string()),
            TrimmedText(" big..    ".to_string()),
        ],
        v
    );
}

#[test]
fn split_reverses_chunks_for_the_minus_side() {
    let grid = Frame::new(0, 0, 10, 3).next_frame();
    let process = grid.into_process(DividerStrategy::End);
    let v = Split.trim("This is a little too big..".to_string(), &process, Alignment::Minus);
    assert_eq!(
        vec![
            TrimmedText(" big..    ".to_string()),
            TrimmedText("little too".to_string()),
            TrimmedText("This is a ".to_string()),
        ],
        v
    );
}

#[test]
fn split_turns_empty_input_into_one_blank_line() {
    let grid = Frame::new(0, 0, 4, 3).next_frame();
    let process = grid.into_process(DividerStrategy::Beginning);
    let v = Split.trim(String::new(), &process, Alignment::Plus);
    assert_eq!(vec![TrimmedText("    ".to_string())], v);
}

#[test]
fn split_round_trip_restores_the_text_padded() {
    // Trimming into chunks of width ten and handing every chunk back
    // reconstructs the input, padded with trailing spaces to a multiple of
    // the width.
    let grid = Frame::new(0, 0, 10, 5).next_frame();
    let process = grid.into_process(DividerStrategy::Beginning);
    let text = "abcdefghijxy".to_string();
    let chunks = Split.trim(text.clone(), &process, Alignment::Plus);
    let back = Split.back(chunks, &process, Alignment::Plus);
    assert_eq!(back, "abcdefghijxy        ".to_string());
    assert_eq!(back.len() % 10, 0);

    let chunks = Split.trim(text, &process, Alignment::Minus);
    let back = Split.back(chunks, &process, Alignment::Minus);
    assert_eq!(back, "abcdefghijxy        ".to_string());
}

#[test]
fn split_back_respects_minus_ordering() {
    let grid = Frame::new(0, 0, 3, 5).next_frame();
    let process = grid.into_process(DividerStrategy::Beginning);
    let lines = vec![TrimmedText("def".to_string()), TrimmedText("abc".to_string())];
    let s = Split.back(lines, &process, Alignment::Minus);
    assert_eq!(s, "abcdef".to_string());
    let lines = vec![TrimmedText("abc".to_string()), TrimmedText("def".to_string())];
    let s = Split.back(lines, &process, Alignment::Plus);
    assert_eq!(s, "abcdef".to_string());
}

#[test]
fn split_overflow_reconstructs_the_unconsumed_tail() {
    // Width 4, height 2: "abcdefghij" trims to ["abcd", "efgh", "ij  "];
    // two lines fit, and the error reconstructs the rest.
    let grid = Frame::new(0, 0, 4, 2).next_frame();
    let mut process = grid.into_process(DividerStrategy::Beginning);
    let e = process
        .add_to_section("abcdefghij".to_string(), &mut Split, Alignment::Plus)
        .unwrap_err();
    let FormatError::NoSpace(rest) = e;
    assert_eq!(rest, "ij  ".to_string());
}

#[test]
fn split_minus_multichunk_reads_top_to_bottom() {
    let grid = Frame::new(0, 0, 4, 2).next_frame();
    let mut process = grid.into_process(DividerStrategy::End);
    process.add_to_section("abcdefgh".to_string(), &mut Split, Alignment::Minus).unwrap();
    let mut output = String::new();
    process.print(&mut OutToString, &mut output).unwrap();
    assert_eq!("abcd\nefgh\n", output);
}

#[test]
fn split_minus_partial_commit_keeps_the_tail() {
    // Only one of the two chunks fits: the chunk nearest the divider stays
    // committed, and the error reconstructs the rest.
    let grid = Frame::new(0, 0, 4, 1).next_frame();
    let mut process = grid.into_process(DividerStrategy::End);
    let e = process
        .add_to_section("abcdefgh".to_string(), &mut Split, Alignment::Minus)
        .unwrap_err();
    let FormatError::NoSpace(rest) = e;
    assert_eq!(rest, "abcd".to_string());
    let mut output = String::new();
    process.print(&mut OutToString, &mut output).unwrap();
    assert_eq!("efgh\n", output);
}

#[test]
fn truncate_back_is_identity_unwrap() {
    let grid = Frame::new(0, 0, 10, 3).next_frame();
    let process = grid.into_process(DividerStrategy::Beginning);
    let s = Truncate.back(vec![TrimmedText("kept      ".to_string())], &process, Alignment::Plus);
    assert_eq!(s, "kept      ".to_string());
}
