use grid_ui::grid::{Alignment, DividerStrategy, Frame};
use grid_ui::out::{Action, OutToString};
use grid_ui::prelude::Handler;
use grid_ui::trim::{FormatError, Ignore, Truncate};

#[test]
fn getters_report_the_grid() {
    let grid = Frame::new(30, 30, 100, 100).next_frame();
    let process = grid.into_process(DividerStrategy::Beginning);
    assert_eq!(process.width(), 70);
    assert_eq!(process.height(), 70);
    assert_eq!(process.start_x(), 30);
    assert_eq!(process.start_y(), 30);
    assert_eq!(process.end_x(), 100);
    assert_eq!(process.end_y(), 100);
}

#[test]
fn plus_side_prints_top_to_bottom() {
    let grid = Frame::new(0, 0, 10, 3).next_frame();
    let mut process = grid.into_process(DividerStrategy::Beginning);
    process.add_to_section("Some stuff".to_string(), &mut Ignore, Alignment::Plus).unwrap();
    let mut output = String::new();
    process.print(&mut OutToString, &mut output).unwrap();
    assert_eq!("Some stuff\n          \n          \n".to_string(), output);
}

#[test]
fn two_plus_adds_keep_their_order() {
    let grid = Frame::new(0, 0, 10, 3).next_frame();
    let mut process = grid.into_process(DividerStrategy::Beginning);
    process.add_to_section("Some stuff".to_string(), &mut Ignore, Alignment::Plus).unwrap();
    process.add_to_section("More stuff".to_string(), &mut Ignore, Alignment::Plus).unwrap();
    let mut output = String::new();
    process.print(&mut OutToString, &mut output).unwrap();
    assert_eq!("Some stuff\nMore stuff\n          \n".to_string(), output);
}

#[test]
fn beginning_divider_leaves_no_minus_room() {
    let grid = Frame::new(0, 0, 100, 100).next_frame();
    let mut process = grid.into_process(DividerStrategy::Beginning);
    assert!(process
        .add_to_section("There's no room for negatively aligned text!".to_string(), &mut Ignore, Alignment::Minus)
        .is_err());
}

#[test]
fn full_plus_side_fails_with_no_space() {
    let grid = Frame::new(0, 0, 10, 1).next_frame();
    let mut process = grid.into_process(DividerStrategy::Beginning);
    process.add_to_section("Some stuff".to_string(), &mut Ignore, Alignment::Plus).unwrap();
    let e = process.add_to_section("No more".to_string(), &mut Ignore, Alignment::Plus).unwrap_err();
    let FormatError::NoSpace(val) = e;
    assert_eq!(val, "No more".to_string());
}

#[test]
fn truncating_section_takes_exactly_its_height() {
    // A section of height 3 with the divider at the beginning accepts three
    // plus entries; the fourth fails, carrying the width-trimmed text back.
    let grid = Frame::new(0, 0, 10, 3).next_frame();
    let mut process = grid.into_process(DividerStrategy::Beginning);
    for _ in 0..3 {
        process.add_to_section("line".to_string(), &mut Truncate, Alignment::Plus).unwrap();
    }
    let e = process
        .add_to_section("0123456789ABC".to_string(), &mut Truncate, Alignment::Plus)
        .unwrap_err();
    let FormatError::NoSpace(val) = e;
    assert_eq!(val, "0123456789".to_string());
}

#[test]
fn minus_lines_read_top_to_bottom() {
    let grid = Frame::new(0, 0, 10, 3).next_frame();
    let mut process = grid.into_process(DividerStrategy::End);
    let results = process.add_to_section_lines(
        vec!["Some stuff".to_string(), "More stuff".to_string()],
        &mut Ignore,
        Alignment::Minus,
    );
    assert!(results.iter().all(|r| r.is_ok()));
    let mut output = String::new();
    process.print(&mut OutToString, &mut output).unwrap();
    assert_eq!("          \nSome stuff\nMore stuff\n".to_string(), output);
}

#[test]
fn plus_lines_added_in_bulk() {
    let grid = Frame::new(0, 0, 10, 3).next_frame();
    let mut process = grid.into_process(DividerStrategy::Beginning);
    let results = process.add_to_section_lines(
        vec!["Some stuff".to_string(), "More stuff".to_string()],
        &mut Ignore,
        Alignment::Plus,
    );
    assert!(results.iter().all(|r| r.is_ok()));
    let mut output = String::new();
    process.print(&mut OutToString, &mut output).unwrap();
    assert_eq!("Some stuff\nMore stuff\n          \n".to_string(), output);
}

#[test]
fn bulk_plus_overflow_reports_the_overflowing_position() {
    let grid = Frame::new(0, 0, 10, 2).next_frame();
    let mut process = grid.into_process(DividerStrategy::Beginning);
    let result = process.add_to_section_lines(
        vec!["Some stuff".to_string(), "More stuff".to_string(), "Even more!".to_string()],
        &mut Ignore,
        Alignment::Plus,
    );
    assert!(result[0].is_ok());
    assert!(result[1].is_ok());
    assert!(result[2].is_err());
    let mut output = String::new();
    process.print(&mut OutToString, &mut output).unwrap();
    assert_eq!("Some stuff\nMore stuff\n".to_string(), output);
}

#[test]
fn bulk_minus_overflow_drops_the_first_entry() {
    let grid = Frame::new(0, 0, 10, 2).next_frame();
    let mut process = grid.into_process(DividerStrategy::End);
    let result = process.add_to_section_lines(
        vec!["Some stuff".to_string(), "More stuff".to_string(), "Even more!".to_string()],
        &mut Ignore,
        Alignment::Minus,
    );
    assert!(result[0].is_err());
    assert!(result[1].is_ok());
    assert!(result[2].is_ok());
    let mut output = String::new();
    process.print(&mut OutToString, &mut output).unwrap();
    assert_eq!("More stuff\nEven more!\n".to_string(), output);
}

#[test]
fn pos_divider_sets_exact_capacities() {
    let grid = Frame::new(0, 0, 10, 3).next_frame();
    let mut process = grid.into_process(DividerStrategy::Pos(1));
    assert!(process.add_to_section("below".to_string(), &mut Ignore, Alignment::Minus).is_ok());
    assert!(process.add_to_section("again".to_string(), &mut Ignore, Alignment::Minus).is_err());
    assert!(process.add_to_section("one".to_string(), &mut Ignore, Alignment::Plus).is_ok());
    assert!(process.add_to_section("two".to_string(), &mut Ignore, Alignment::Plus).is_ok());
    assert!(process.add_to_section("three".to_string(), &mut Ignore, Alignment::Plus).is_err());
    let mut output = String::new();
    process.print(&mut OutToString, &mut output).unwrap();
    assert_eq!("below\none\ntwo\n", output);
}

#[test]
fn shove_moves_the_divider_without_discarding() {
    let grid = Frame::new(0, 0, 10, 4).next_frame();
    let mut process = grid.into_process(DividerStrategy::Halfway);
    process.add_to_section("Some stuff".to_string(), &mut Ignore, Alignment::Plus).unwrap();
    process.add_to_section("More stuff".to_string(), &mut Ignore, Alignment::Minus).unwrap();
    let mut output = String::new();
    process.print(&mut OutToString, &mut output).unwrap();
    assert_eq!("          \nMore stuff\nSome stuff\n          \n".to_string(), output);

    process.shove(Alignment::Minus);
    let mut output = String::new();
    process.print(&mut OutToString, &mut output).unwrap();
    assert_eq!("More stuff\nSome stuff\n          \n          \n".to_string(), output);
    assert!(process.add_to_section("No room left".to_string(), &mut Ignore, Alignment::Minus).is_err());

    process.shove(Alignment::Plus);
    process.add_to_section("More room!".to_string(), &mut Ignore, Alignment::Minus).unwrap();
    let mut output = String::new();
    process.print(&mut OutToString, &mut output).unwrap();
    assert_eq!("          \nMore room!\nMore stuff\nSome stuff\n".to_string(), output);
}

#[test]
fn shove_keeps_every_committed_line() {
    // Fill both sides to capacity, shove the divider fully each way: the
    // rendered lines stay exactly the same.
    let grid = Frame::new(0, 0, 4, 4).next_frame();
    let mut process = grid.into_process(DividerStrategy::Halfway);
    process.add_to_section("m1".to_string(), &mut Truncate, Alignment::Minus).unwrap();
    process.add_to_section("m2".to_string(), &mut Truncate, Alignment::Minus).unwrap();
    process.add_to_section("p1".to_string(), &mut Truncate, Alignment::Plus).unwrap();
    process.add_to_section("p2".to_string(), &mut Truncate, Alignment::Plus).unwrap();
    let mut before = String::new();
    process.print(&mut OutToString, &mut before).unwrap();

    process.shove(Alignment::Minus);
    let mut after_minus = String::new();
    process.print(&mut OutToString, &mut after_minus).unwrap();
    assert_eq!(before, after_minus);

    process.shove(Alignment::Plus);
    let mut after_plus = String::new();
    process.print(&mut OutToString, &mut after_plus).unwrap();
    assert_eq!(before, after_plus);
    assert_eq!(before.lines().count(), 4);
}

#[test]
fn shove_converts_failures_into_successes() {
    let grid = Frame::new(0, 0, 10, 4).next_frame();
    let mut process = grid.into_process(DividerStrategy::Beginning);
    assert!(process.add_to_section("blocked".to_string(), &mut Ignore, Alignment::Minus).is_err());
    process.shove(Alignment::Plus);
    assert!(process.add_to_section("now it fits".to_string(), &mut Ignore, Alignment::Minus).is_ok());
}

#[test]
fn grab_actions_covers_the_whole_grid() {
    let grid = Frame::new(2, 1, 7, 4).next_frame();
    let mut process = grid.into_process(DividerStrategy::Beginning);
    process.add_to_section("hi".to_string(), &mut Truncate, Alignment::Plus).unwrap();
    let actions = process.grab_actions();
    assert_eq!(actions.len(), 6);
    assert_eq!(actions[0], Action::MoveTo(2, 1));
    assert_eq!(actions[1], Action::Print("hi   ".to_string()));
    assert_eq!(actions[2], Action::MoveTo(2, 2));
    assert_eq!(actions[3], Action::Print("     ".to_string()));
    assert_eq!(actions[4], Action::MoveTo(2, 3));
    assert_eq!(actions[5], Action::Print("     ".to_string()));
}

#[test]
fn print_safe_equals_print_for_a_safe_handler() {
    let grid = Frame::new(0, 0, 10, 3).next_frame();
    let mut process = grid.into_process(DividerStrategy::Beginning);
    process.add_to_section("Some stuff".to_string(), &mut Ignore, Alignment::Plus).unwrap();
    let mut output = String::new();
    process.print_safe(&mut OutToString, &mut output);
    assert_eq!("Some stuff\n          \n          \n".to_string(), output);
}
