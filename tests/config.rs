use minesweeperlib::{Layout, Level, Options, Rect};

#[test]
fn layout_test_attributes() {
    let layout = Layout::for_level(Level::Beginner);
    let bounding_box = layout.grid();
    assert_eq!(layout.height(), 276);
    assert_eq!(layout.width(), 210);
    assert_eq!(layout.grid(), Rect::new(15, 81, 180, 180));
    assert_eq!(layout.tile(bounding_box, 0), Rect::new(15, 81, 20, 20));
    assert_eq!(layout.tile(bounding_box, 80), Rect::new(175, 241, 20, 20));
    assert_eq!(layout.timer_digit_panel(), Rect::new(129, 21, 65, 37));
    assert_eq!(layout.flag_digit_panel(), Rect::new(16, 21, 65, 37));
    assert_eq!(layout.digit_panel_offset(), 16);
    assert_eq!(layout.timer_digit(0), Rect::new(131, 23, 19, 33));
    assert_eq!(layout.timer_digit(1), Rect::new(152, 23, 19, 33));
    assert_eq!(layout.timer_digit(2), Rect::new(173, 23, 19, 33));
    assert_eq!(layout.flag_digit(0), Rect::new(18, 23, 19, 33));
    assert_eq!(layout.flag_digit(1), Rect::new(39, 23, 19, 33));
    assert_eq!(layout.flag_digit(2), Rect::new(60, 23, 19, 33));
    assert_eq!(layout.face(), Rect::new(84, 19, 42, 42));
}

#[test]
fn layout_expert_window() {
    let layout = Layout::for_level(Level::Expert);
    assert_eq!(layout.width(), 630);
    assert_eq!(layout.height(), 416);
    assert_eq!(layout.grid(), Rect::new(15, 81, 600, 320));
    assert_eq!(layout.grid_tile(479), Rect::new(595, 381, 20, 20));
    assert_eq!(layout.timer_digit_panel(), Rect::new(545, 21, 65, 37));
    assert_eq!(layout.face(), Rect::new(294, 19, 42, 42));
    assert_eq!(Layout::tile_side(), 20);
}

#[test]
fn options_test_construction() {
    assert_eq!(
        Options::beginner(),
        Options { level: Level::Beginner, rows: 9, columns: 9, mines: 10 }
    );
    assert_eq!(
        Options::intermediate(),
        Options { level: Level::Intermediate, rows: 16, columns: 16, mines: 40 }
    );
    assert_eq!(
        Options::expert(),
        Options { level: Level::Expert, rows: 16, columns: 30, mines: 99 }
    );
}

#[test]
fn test_command_line() {
    let mut args = vec!["minesweeper".to_string(), "beginner".to_string()];
    assert_eq!(Options::new_with_args(args), Options::beginner());

    args = vec!["minesweeper".to_string(), "intermediate".to_string()];
    assert_eq!(Options::new_with_args(args), Options::intermediate());

    args = vec!["minesweeper".to_string(), "expert".to_string()];
    assert_eq!(Options::new_with_args(args), Options::expert());

    args = vec!["minesweeper".to_string()];
    assert_eq!(Options::new_with_args(args), Options::beginner());

    args = vec!["minesweeper".to_string(), "wrong".to_string()];
    assert_eq!(Options::new_with_args(args), Options::beginner());
}

#[test]
fn options_test_attributes() {
    fn run(options: &Options) {
        assert_eq!(options.rows * options.columns, options.tiles());
        assert_eq!(options.mines, options.mines());
        assert_eq!(options.rows * options.columns - options.mines, options.blanks());
    }

    assert_eq!(Options::beginner().level(), "beginner");
    run(&Options::beginner());
    assert_eq!(Options::intermediate().level(), "intermediate");
    run(&Options::intermediate());
    assert_eq!(Options::expert().level(), "expert");
    run(&Options::expert());
}

fn neighbors(options: &Options, index: u16) -> Vec<u16> {
    let mut visit: Vec<u16> = Vec::new();
    for (row, col) in options.for_each_neighbor(index) {
        visit.push(options.index(row, col));
    }
    visit
}

#[test]
fn test_for_each_neighbor() {
    assert_eq!(neighbors(&Options::beginner(), 0), vec![1, 9, 10]);
    assert_eq!(neighbors(&Options::beginner(), 10), vec![0, 1, 2, 9, 11, 18, 19, 20]);
    assert_eq!(neighbors(&Options::beginner(), 80), vec![70, 71, 79]);

    assert_eq!(neighbors(&Options::intermediate(), 0), vec![1, 16, 17]);
    assert_eq!(neighbors(&Options::intermediate(), 17), vec![0, 1, 2, 16, 18, 32, 33, 34]);
    assert_eq!(neighbors(&Options::intermediate(), 16 * 16 - 1), vec![238, 239, 254]);

    assert_eq!(neighbors(&Options::expert(), 0), vec![1, 30, 31]);
    assert_eq!(neighbors(&Options::expert(), 31), vec![0, 1, 2, 30, 32, 60, 61, 62]);
    assert_eq!(neighbors(&Options::expert(), 16 * 30 - 1), vec![448, 449, 478]);
}

#[test]
fn neighbors_clipped_at_edges_and_corners() {
    let o = Options::beginner();
    // corners
    assert_eq!(neighbors(&o, 8), vec![7, 16, 17]);
    assert_eq!(neighbors(&o, 72), vec![63, 64, 73]);
    // edges
    assert_eq!(neighbors(&o, 4), vec![3, 5, 12, 13, 14]);
    assert_eq!(neighbors(&o, 76), vec![66, 67, 68, 75, 77]);
    assert_eq!(neighbors(&o, 36), vec![27, 28, 37, 45, 46]);
    assert_eq!(neighbors(&o, 44), vec![34, 35, 43, 52, 53]);
    assert_eq!(o.row_column(44), (4, 8));
    assert_eq!(o.index(4, 8), 44);
}

#[test]
fn tiers_leave_blank_cells() {
    for o in [Options::beginner(), Options::intermediate(), Options::expert()] {
        assert!(o.mines() < o.tiles());
        assert!(o.blanks() > 0);
    }
    assert_eq!(Options::expert().blanks(), 381);
}

#[test]
fn rect_edges_and_points() {
    let r = Rect::new(10, 20, 5, 6);
    assert_eq!(r.left(), 10);
    assert_eq!(r.right(), 15);
    assert_eq!(r.top(), 20);
    assert_eq!(r.bottom(), 26);
    assert_eq!(r.width(), 5);
    assert_eq!(r.height(), 6);
    assert!(r.contains_point((10, 20)));
    assert!(r.contains_point((14, 25)));
    assert!(!r.contains_point((15, 25)));
    assert!(!r.contains_point((14, 26)));
    assert!(!r.contains_point((9, 20)));
    let p = minesweeperlib::Point::new(3, 4);
    assert_eq!(p, minesweeperlib::Point { x: 3, y: 4 });
}
