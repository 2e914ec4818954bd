use minesweeperlib::{
    ChannelMessage, Draw, FaceImage, Game, GameState, Image, Layout, Level, MouseButton,
    MouseEventData, Options, Rect, TileImage,
};
use std::collections::BTreeSet;

fn beginner() -> Game {
    Game::new(Layout::for_level(Level::Beginner))
}

fn click(game: &mut Game, x: i32, y: i32, button: MouseButton) {
    let sender = game.get_sender();
    let event = MouseEventData { x, y, mouse_btn: button };
    assert!(game.send(&sender, ChannelMessage::MouseEvent(event)));
    assert!(game.settle(10_000));
}

fn click_tile(game: &mut Game, index: usize, button: MouseButton) {
    let r = game.layout().grid_tile(index as i16);
    click(game, r.left() + 10, r.top() + 10, button);
}

fn click_face(game: &mut Game) {
    let r = game.layout().face();
    click(game, r.left() + 5, r.top() + 5, MouseButton::Left);
}

fn neighbors(o: &Options, index: usize) -> Vec<usize> {
    o.for_each_neighbor(index as u16)
        .into_iter()
        .map(|(r, c)| o.index(r, c) as usize)
        .collect()
}

fn mines(game: &Game) -> Vec<bool> {
    (0..game.grid().tile_count()).map(|i| game.grid().mine_at(i as u16)).collect()
}

fn revealed(game: &Game) -> BTreeSet<usize> {
    (0..game.grid().tile_count()).filter(|&i| game.grid().tile(i).is_revealed()).collect()
}

/// The cells a reveal of `start` should open: its blank region and the
/// numbered cells bordering it.
fn flood(game: &Game, start: usize) -> BTreeSet<usize> {
    let o = game.layout().options;
    let mut seen = BTreeSet::new();
    let mut todo = vec![start];
    while let Some(i) = todo.pop() {
        if !seen.insert(i) {
            continue;
        }
        if game.grid().tile(i).adjacent_mines() == 0 {
            for n in neighbors(&o, i) {
                if !game.grid().mine_at(n as u16) {
                    todo.push(n);
                }
            }
        }
    }
    seen
}

/// A new round on which `pick` finds a cell, clicking the face until it does.
fn round_with(game: &mut Game, pick: impl Fn(&Game) -> Option<usize>) -> usize {
    for _ in 0..1000 {
        if let Some(i) = pick(game) {
            return i;
        }
        click_face(game);
    }
    panic!("no suitable board");
}

#[test]
fn game_test_construction() {
    let mut game = beginner();
    let sender = game.get_sender();
    assert!(game.send(&sender, ChannelMessage::TestMessage));
    game.pull();
}

#[test]
fn test_render() {
    let mut game = beginner();
    game.pull();
    let frame = game.render().unwrap();
    assert_eq!(frame.len(), 10 + 81);
    assert_eq!(
        frame[0],
        Draw { image: Image::Background(Level::Beginner), dst: Rect::new(0, 0, 210, 276) }
    );
    assert_eq!(frame[1], Draw { image: Image::DigitPanel, dst: Rect::new(129, 21, 65, 37) });
    assert_eq!(frame[2], Draw { image: Image::Digit(0), dst: Rect::new(173, 23, 19, 33) });
    assert_eq!(frame[5], Draw { image: Image::DigitPanel, dst: Rect::new(16, 21, 65, 37) });
    // ten flags: ones, tens, hundreds
    assert_eq!(frame[6], Draw { image: Image::Digit(0), dst: Rect::new(60, 23, 19, 33) });
    assert_eq!(frame[7], Draw { image: Image::Digit(1), dst: Rect::new(39, 23, 19, 33) });
    assert_eq!(frame[8], Draw { image: Image::Digit(0), dst: Rect::new(18, 23, 19, 33) });
    assert_eq!(frame[9], Draw { image: Image::Face(FaceImage::Playing), dst: Rect::new(84, 19, 42, 42) });
    assert_eq!(frame[10], Draw { image: Image::Tile(TileImage::Hidden), dst: Rect::new(15, 81, 20, 20) });
}

#[test]
fn minefield_has_exact_count_of_distinct_mines() {
    for level in [Level::Beginner, Level::Intermediate, Level::Expert] {
        let layout = Layout::for_level(level);
        let mut field = minesweeperlib::Minefield::new(layout.options);
        for _ in 0..20 {
            let count = (0..layout.options.tiles()).filter(|&i| field.mine_at(i as u16)).count();
            assert_eq!(count as i16, layout.options.mines());
            // nothing outside the board
            assert!(!field.mine_at(layout.options.tiles() as u16));
            field.reset();
        }
    }
}

#[test]
fn minefields_differ_between_draws() {
    let o = Options::beginner();
    let a = minesweeperlib::Minefield::new(o);
    let mut differs = false;
    for _ in 0..5 {
        let b = minesweeperlib::Minefield::new(o);
        differs |= (0..81).any(|i| a.mine_at(i) != b.mine_at(i));
    }
    assert!(differs);
}

#[test]
fn adjacency_counts_clipped_neighbours() {
    let game = beginner();
    let o = game.layout().options;
    let m = mines(&game);
    for i in 0..81 {
        let expected = neighbors(&o, i).iter().filter(|&&n| m[n]).count();
        assert_eq!(game.grid().tile(i).adjacent_mines() as usize, expected);
        assert_eq!(game.grid().tile(i).is_mine(), m[i]);
    }
}

#[test]
fn reveal_of_blank_opens_region_and_border() {
    let mut game = beginner();
    let start = round_with(&mut game, |g| {
        (0..81).find(|&i| !g.grid().mine_at(i as u16) && g.grid().tile(i).adjacent_mines() == 0)
    });
    let expected = flood(&game, start);
    click_tile(&mut game, start, MouseButton::Left);
    assert_eq!(revealed(&game), expected);
    assert_eq!(game.in_flight(), 0);
    assert_eq!(game.status().revealed as usize, expected.len());
}

#[test]
fn corner_blank_reaches_its_three_neighbours() {
    let o = Options::beginner();
    assert_eq!(neighbors(&o, 0), vec![1, 9, 10]);
    let mut game = beginner();
    round_with(&mut game, |g| {
        let blank = !g.grid().mine_at(0) && g.grid().tile(0).adjacent_mines() == 0;
        if blank { Some(0) } else { None }
    });
    click_tile(&mut game, 0, MouseButton::Left);
    for n in [0, 1, 9, 10] {
        assert!(game.grid().tile(n).is_revealed());
    }
}

#[test]
fn numbered_cell_reveals_only_itself() {
    let mut game = beginner();
    let start = round_with(&mut game, |g| {
        (0..81).find(|&i| !g.grid().mine_at(i as u16) && g.grid().tile(i).adjacent_mines() > 0)
    });
    click_tile(&mut game, start, MouseButton::Left);
    assert_eq!(revealed(&game), [start].into_iter().collect());
    assert_eq!(game.status().game_state, GameState::Playing);
    assert!(game.timer_running());
}

#[test]
fn flags_track_budget_and_announce_exhaustion_once() {
    let mut game = beginner();
    assert_eq!(game.flags(), 10);
    for i in 0..10 {
        click_tile(&mut game, i, MouseButton::Right);
        assert!(game.grid().tile(i).is_flagged());
        assert_eq!(game.flags(), 10 - 1 - i as i16);
    }
    // the budget is exhausted: the eleventh flag is refused
    click_tile(&mut game, 10, MouseButton::Right);
    assert!(!game.grid().tile(10).is_flagged());
    assert_eq!(game.flags(), 0);
    // unflag one: the budget comes back
    click_tile(&mut game, 3, MouseButton::Right);
    assert_eq!(game.flags(), 1);
    click_tile(&mut game, 10, MouseButton::Right);
    assert!(game.grid().tile(10).is_flagged());
    assert_eq!(game.flags(), 0);
    // neighbours learn of flags
    assert_eq!(game.grid().tile(11).adjacent_flags(), 3);
}

#[test]
fn revealing_a_mine_loses_at_once() {
    let mut game = beginner();
    let mine = (0..81).find(|&i| game.grid().mine_at(i as u16)).unwrap();
    click_tile(&mut game, mine, MouseButton::Left);
    assert_eq!(game.status().game_state, GameState::Lose);
    assert!(!game.timer_running());
    assert!(game.grid().tile(mine).is_game_over());
    let frame = game.render().unwrap();
    assert_eq!(frame[9].image, Image::Face(FaceImage::Lose));
    assert_eq!(frame[10 + mine].image, Image::Tile(TileImage::Mine));
    // a lost round takes no more clicks
    let other = (0..81).find(|&i| !game.grid().mine_at(i as u16)).unwrap();
    click_tile(&mut game, other, MouseButton::Left);
    assert!(!game.grid().tile(other).is_revealed());
}

#[test]
fn revealing_every_blank_wins() {
    let mut game = beginner();
    let blanks: Vec<usize> = (0..81).filter(|&i| !game.grid().mine_at(i as u16)).collect();
    for &i in &blanks {
        if game.status().game_state == GameState::Win {
            break;
        }
        click_tile(&mut game, i, MouseButton::Left);
    }
    assert_eq!(game.status().game_state, GameState::Win);
    assert_eq!(game.status().revealed, 71);
    assert_eq!(revealed(&game).len(), 71);
}

#[test]
fn new_round_restores_every_cell() {
    let mut game = beginner();
    click_tile(&mut game, 40, MouseButton::Right);
    let blank = (0..81).find(|&i| !game.grid().mine_at(i as u16) && i != 40).unwrap();
    click_tile(&mut game, blank, MouseButton::Left);
    click_face(&mut game);
    assert_eq!(game.status().game_state, GameState::Init);
    assert_eq!(game.status().revealed, 0);
    assert_eq!(game.flags(), 10);
    let m = mines(&game);
    assert_eq!(m.iter().filter(|&&b| b).count(), 10);
    let o = game.layout().options;
    for i in 0..81 {
        let t = game.grid().tile(i);
        assert!(!t.is_revealed() && !t.is_flagged() && !t.is_game_over());
        assert_eq!(t.adjacent_flags(), 0);
        assert_eq!(t.is_mine(), m[i]);
        let around = neighbors(&o, i).iter().filter(|&&n| m[n]).count();
        assert_eq!(t.adjacent_mines() as usize, around);
    }
}

#[test]
fn clicks_outside_every_component_change_nothing() {
    let mut game = beginner();
    click(&mut game, 2, 2, MouseButton::Left);
    click(&mut game, 2, 2, MouseButton::Middle);
    assert!(revealed(&game).is_empty());
    assert_eq!(game.status().game_state, GameState::Init);
    assert_eq!(game.in_flight(), 0);
}

#[test]
fn sending_on_an_unknown_channel_is_refused() {
    let mut game = beginner();
    let bogus = minesweeperlib::Sender { channel: 1_000_000 };
    assert!(!game.send(&bogus, ChannelMessage::Clear));
}

#[test]
fn error_from_description() {
    let e = minesweeperlib::Error::from("image not found".to_string());
    assert_eq!(e, minesweeperlib::Error::Any { desc: "image not found".to_string() });
    assert_ne!(e, minesweeperlib::Error::StartTimeInvalid);
}

#[test]
fn render_digit_draws_the_digit() {
    let r = Rect::new(1, 2, 3, 4);
    assert_eq!(minesweeperlib::render_digit(7, r), Draw { image: Image::Digit(7), dst: r });
}

#[test]
fn settle_from_rest_is_quiet_at_once() {
    let mut game = beginner();
    assert!(game.settle(10_000));
    assert!(game.settle(1));
    assert_eq!(game.pull(), 0);
    assert_eq!(game.in_flight(), 0);
}

#[test]
fn input_reaches_only_through_the_game_channel() {
    let mut game = beginner();
    let sender = game.get_sender();
    let r = game.layout().grid_tile(0);
    let event = MouseEventData { x: r.left() + 1, y: r.top() + 1, mouse_btn: MouseButton::Right };
    assert!(game.send(&sender, ChannelMessage::MouseEvent(event)));
    assert!(game.pull() >= 1);
    assert!(game.settle(100));
    assert!(game.grid().tile(0).is_flagged());
    assert_eq!(game.flags(), 9);
}

#[test]
fn new_round_stops_and_zeroes_the_timer() {
    let mut game = beginner();
    let blank = (0..81).find(|&i| !game.grid().mine_at(i as u16)).unwrap();
    click_tile(&mut game, blank, MouseButton::Left);
    assert!(game.timer_running());
    click_face(&mut game);
    assert!(!game.timer_running());
    let frame = game.render().unwrap();
    assert_eq!(frame[2].image, Image::Digit(0));
    assert_eq!(frame[3].image, Image::Digit(0));
    assert_eq!(frame[4].image, Image::Digit(0));
}
