use grid_ui::grid::{Alignment, Frame, Grid, SplitStrategy};

#[test]
fn unconstrained_split_takes_everything() {
    let mut grid = Frame::new(0, 0, 10, 10).next_frame();
    let chunk = grid.split(&SplitStrategy::new());
    assert_eq!(chunk, Some(Grid { start_x: 0, start_y: 0, end_x: 10, end_y: 10 }));
    assert_eq!(grid, Grid { start_x: 10, start_y: 10, end_x: 10, end_y: 10 });
}

#[test]
fn exhausted_grid_refuses_forever() {
    let mut grid = Frame::new(0, 0, 10, 10).next_frame();
    let _ = grid.split(&SplitStrategy::new());
    assert_eq!(grid.split(&SplitStrategy::new()), None);
    assert_eq!(grid, Grid { start_x: 10, start_y: 10, end_x: 10, end_y: 10 });
    assert_eq!(grid.split(&SplitStrategy::new()), None);
}

#[test]
fn zero_area_grid_refuses() {
    let mut flat = Grid { start_x: 0, start_y: 5, end_x: 10, end_y: 5 };
    assert_eq!(flat.split(&SplitStrategy::new()), None);
    assert_eq!(flat, Grid { start_x: 0, start_y: 5, end_x: 10, end_y: 5 });
}

#[test]
fn max_x_minus_carves_from_the_left() {
    let mut grid = Frame::new(0, 0, 10, 10).next_frame();
    let chunk = grid.split(&SplitStrategy::new().max_x(5, Alignment::Minus));
    assert_eq!(chunk, Some(Grid { start_x: 0, start_y: 0, end_x: 5, end_y: 10 }));
    assert_eq!(grid, Grid { start_x: 5, start_y: 0, end_x: 10, end_y: 10 });
    let chunk = grid.split(&SplitStrategy::new().max_x(2, Alignment::Plus));
    assert_eq!(chunk, Some(Grid { start_x: 8, start_y: 0, end_x: 10, end_y: 10 }));
    assert_eq!(grid, Grid { start_x: 5, start_y: 0, end_x: 8, end_y: 10 });
}

#[test]
fn max_y_carves_top_and_bottom() {
    let mut grid = Frame::new(0, 0, 10, 10).next_frame();
    let chunk = grid.split(&SplitStrategy::new().max_y(5, Alignment::Minus));
    assert_eq!(chunk, Some(Grid { start_x: 0, start_y: 0, end_x: 10, end_y: 5 }));
    let chunk = grid.split(&SplitStrategy::new().max_y(2, Alignment::Plus));
    assert_eq!(chunk, Some(Grid { start_x: 0, start_y: 8, end_x: 10, end_y: 10 }));
    assert_eq!(grid, Grid { start_x: 0, start_y: 5, end_x: 10, end_y: 8 });
}

#[test]
fn oversized_maximum_is_clamped() {
    let mut grid = Frame::new(0, 0, 4, 4).next_frame();
    let chunk = grid.split(&SplitStrategy::new().max_x(100, Alignment::Minus));
    assert_eq!(chunk, Some(Grid { start_x: 0, start_y: 0, end_x: 4, end_y: 4 }));
    assert_eq!(grid, Grid { start_x: 4, start_y: 0, end_x: 4, end_y: 4 });
}

#[test]
fn minimum_is_strict() {
    let mut grid = Frame::new(0, 0, 10, 10).next_frame();
    assert_eq!(grid.split(&SplitStrategy::new().min_x(10)), None);
    assert_eq!(grid, Grid { start_x: 0, start_y: 0, end_x: 10, end_y: 10 });
    assert_eq!(grid.split(&SplitStrategy::new().min_x(15)), None);
    assert_eq!(grid.split(&SplitStrategy::new().min_y(10)), None);
    let ok = grid.split(&SplitStrategy::new().min_x(5).min_y(5));
    assert_eq!(ok, Some(Grid { start_x: 0, start_y: 0, end_x: 10, end_y: 10 }));
}

#[test]
fn extend_undoes_a_maximum_split() {
    let mut grid = Frame::new(0, 0, 10, 10).next_frame();
    let piece = grid.split(&SplitStrategy::new().max_y(5, Alignment::Plus)).unwrap();
    assert_eq!(grid.end_y, 5);
    assert!(grid.extend(piece).is_ok());
    assert_eq!(grid, Grid { start_x: 0, start_y: 0, end_x: 10, end_y: 10 });

    let piece = grid.split(&SplitStrategy::new().max_x(3, Alignment::Minus)).unwrap();
    assert_eq!(grid.start_x, 3);
    assert!(grid.extend(piece).is_ok());
    assert_eq!(grid, Grid { start_x: 0, start_y: 0, end_x: 10, end_y: 10 });
}

#[test]
fn extend_rejects_an_incompatible_grid() {
    let mut grid = Frame::new(0, 0, 10, 5).next_frame();
    let incompatible = Frame::new(4, 4, 8, 8).next_frame();
    let back = grid.extend(incompatible);
    assert_eq!(back, Err(Grid { start_x: 4, start_y: 4, end_x: 8, end_y: 8 }));
    assert_eq!(grid, Grid { start_x: 0, start_y: 0, end_x: 10, end_y: 5 });
}

#[test]
fn frame_hands_out_fresh_grids_and_resizes() {
    let mut frame = Frame::new(0, 0, 10, 10);
    let grid = frame.next_frame();
    assert_eq!(grid, Grid { start_x: 0, start_y: 0, end_x: 10, end_y: 10 });
    frame.resize(5, 5, 10, 10);
    assert_eq!(frame.next_frame(), Grid { start_x: 5, start_y: 5, end_x: 10, end_y: 10 });
    // a grid already handed out is unaffected
    assert_eq!(grid, Grid { start_x: 0, start_y: 0, end_x: 10, end_y: 10 });
}

#[test]
fn default_strategy_matches_new() {
    let mut a = Frame::new(0, 0, 3, 3).next_frame();
    let mut b = Frame::new(0, 0, 3, 3).next_frame();
    let via_new = a.split(&SplitStrategy::new());
    let via_default = b.split(&SplitStrategy::default());
    assert_eq!(via_new, via_default);
}
