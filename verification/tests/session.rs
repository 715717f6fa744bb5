use snake_again::game::{Direction, Game, MoveResult, Pos};
use snake_again::session::Session;

fn session_with_food(draw: (u16, u16)) -> Session {
    Session::new(Game::with_draw((10, 10), draw).unwrap())
}

#[test]
fn session_starts_by_hand() {
    let session = session_with_food((0, 0));
    assert!(!session.is_autopilot());
    assert_eq!(session.game().get_field(), (10, 10));
    assert_eq!(session.game().get_food_pos(), (0, 0));
    assert_eq!(session.game().get_direction(), Direction::Right);
}

#[test]
fn toggling_the_autopilot() {
    let mut session = session_with_food((0, 0));
    session.toggle_autopilot();
    assert!(session.is_autopilot());
    session.toggle_autopilot();
    assert!(!session.is_autopilot());
}

#[test]
fn steering_by_hand() {
    let mut session = session_with_food((0, 0));
    session.steer(Direction::Left);
    assert_eq!(session.game().get_direction(), Direction::Right);
    session.steer(Direction::Up);
    assert_eq!(session.game().get_direction(), Direction::Up);
    assert_eq!(session.tick(), MoveResult::Moved { new_pos: (5, 4) });
}

#[test]
fn steering_is_ignored_under_the_autopilot() {
    let mut session = session_with_food((5, 8));
    session.toggle_autopilot();
    session.steer(Direction::Up);
    assert_eq!(session.game().get_direction(), Direction::Right);
    assert_eq!(session.tick(), MoveResult::Moved { new_pos: (5, 6) });
    assert_eq!(session.game().get_direction(), Direction::Down);
}

#[test]
fn tick_by_hand_keeps_the_heading() {
    let mut session = session_with_food((5, 8));
    assert_eq!(session.tick(), MoveResult::Moved { new_pos: (6, 5) });
    assert_eq!(session.tick(), MoveResult::Moved { new_pos: (7, 5) });
    assert_eq!(session.game().get_direction(), Direction::Right);
}

#[test]
fn autopilot_reaches_the_food() {
    let mut session = session_with_food((8, 2));
    session.toggle_autopilot();
    let mut steps: u32 = 0;
    loop {
        steps += 1;
        assert!(steps < 20);
        match session.tick_with((1, 1)) {
            MoveResult::Moved { .. } => {}
            MoveResult::Yummi { new_pos, food } => {
                assert_eq!(new_pos, (8, 2));
                assert_eq!(food, (1, 1));
                break;
            }
            MoveResult::Die => panic!("the snake died"),
        }
    }
    assert_eq!(steps, 6);
    assert_eq!(session.game().get_snake().len(), 6);
    assert_eq!(session.game().get_food_pos(), (1, 1));
}

#[test]
fn autopilot_plays_on() {
    let mut session = Session::new(Game::with_draw((8, 6), (7, 0)).unwrap());
    session.toggle_autopilot();
    let mut eaten: u32 = 0;
    let mut draw: u16 = 11;
    for _ in 0..400 {
        draw = draw.wrapping_mul(75).wrapping_add(74);
        let before = session.game().get_snake();
        let food = session.game().get_food_pos();
        match session.tick_with((draw, draw / 7)) {
            MoveResult::Moved { new_pos } => {
                assert_eq!(session.game().get_snake().len(), before.len());
                assert!(!before.contains(&new_pos));
            }
            MoveResult::Yummi { new_pos, food: placed } => {
                eaten += 1;
                assert_eq!(new_pos, food);
                assert_eq!(session.game().get_snake().len(), before.len() + 1);
                assert!(!session.game().get_snake().contains(&placed));
            }
            MoveResult::Die => {
                assert_eq!(session.game().get_snake(), before);
                assert_eq!(session.game().get_food_pos(), food);
                break;
            }
        }
        let cells: Vec<Pos> = session.game().get_snake().into_iter().collect();
        for i in 0..cells.len() {
            assert!(cells[i].0 < 8 && cells[i].1 < 6);
            for j in (i + 1)..cells.len() {
                assert!(cells[i] != cells[j]);
            }
        }
    }
    assert!(eaten >= 3);
}

#[test]
fn autopilot_cannot_turn_back() {
    let mut game = Game::with_draw((5, 5), (0, 0)).unwrap();
    game.set_direction(Direction::Up);
    assert_eq!(game.move_snake(), MoveResult::Moved { new_pos: (4, 1) });
    assert_eq!(game.move_snake(), MoveResult::Moved { new_pos: (4, 0) });
    game.set_direction(Direction::Left);
    assert_eq!(game.move_snake(), MoveResult::Moved { new_pos: (3, 0) });
    game.set_direction(Direction::Down);
    assert_eq!(game.move_snake(), MoveResult::Moved { new_pos: (3, 1) });
    let cells: Vec<Pos> = game.get_snake().into_iter().collect();
    assert_eq!(cells, vec![(3, 1), (3, 0), (4, 0), (4, 1), (4, 2)]);
    game.set_direction(Direction::Right);
    let mut session = Session::new(game);
    session.toggle_autopilot();
    assert_eq!(session.tick_with((0, 0)), MoveResult::Die);
    assert_eq!(session.game().get_direction(), Direction::Right);
}

#[test]
fn autopilot_without_a_plan_keeps_the_heading() {
    let mut game = Game::with_draw((5, 5), (0, 0)).unwrap();
    let turns = [
        Direction::Down,
        Direction::Left,
        Direction::Left,
        Direction::Left,
        Direction::Left,
        Direction::Up,
        Direction::Up,
        Direction::Right,
        Direction::Up,
        Direction::Right,
        Direction::Right,
    ];
    for d in turns.iter() {
        game.set_direction(*d);
        assert!(matches!(game.move_snake(), MoveResult::Moved { .. }));
    }
    let cells: Vec<Pos> = game.get_snake().into_iter().collect();
    assert_eq!(cells, vec![(3, 0), (2, 0), (1, 0), (1, 1), (0, 1)]);
    assert_eq!(game.get_food_pos(), (0, 0));
    let mut session = Session::new(game);
    session.toggle_autopilot();
    assert_eq!(session.tick_with((0, 0)), MoveResult::Moved { new_pos: (4, 0) });
    assert_eq!(session.game().get_direction(), Direction::Right);
}
