use snake_again::ai::{
    build_path, choose_step, direction_to, get_distance, get_neighbours, PlanningFailure,
};
use snake_again::rings::{has, label, label_ring};
use snake_again::search::{find_nearest, inspect};
use snake_again::cells::{CellMap, CellSet};
use snake_again::game::{Direction, Pos, Size};
use std::collections::VecDeque;

fn draw_field(size: Size, snake: &VecDeque<Pos>, food: Pos) {
    for i in 0..size.0 {
        let mut row = String::new();
        for j in 0..size.1 {
            let x: Pos = (j, i);
            if x == food {
                row.push('@');
            } else if x == *snake.front().unwrap() {
                row.push('=');
            } else if snake.contains(&x) {
                row.push('+');
            } else {
                row.push('.');
            }
        }
        println!("{}", row);
    }
}

fn snake_of(cells: &[Pos]) -> VecDeque<Pos> {
    let mut snake: VecDeque<Pos> = VecDeque::new();
    for c in cells {
        snake.push_back(*c);
    }
    snake
}

#[test]
fn up() {
    let size: Size = (10u16, 10u16);
    let mut snake: VecDeque<Pos> = VecDeque::with_capacity(5);
    let pos: Pos = (&size.0 - 1, &size.1 - 1);
    for i in 0..5 {
        snake.push_back((pos.0 - i, pos.1))
    }
    draw_field(size, &snake, (5, 5));
    let dir = build_path(size, &snake, (4, 4));
    assert_eq!(dir, Ok(Direction::Up));
}

#[test]
fn down() {
    let size: Size = (10u16, 10u16);
    let mut snake: VecDeque<Pos> = VecDeque::with_capacity(5);
    let pos: Pos = (&size.0 - 1, 1);
    for i in 0..5 {
        snake.push_back((pos.0 - i, pos.1))
    }
    draw_field(size, &snake, (5, 5));
    let dir = build_path(size, &snake, (5, 5));
    assert_eq!(dir, Ok(Direction::Down));
}

#[test]
fn left() {
    let size: Size = (10u16, 10u16);
    let mut snake: VecDeque<Pos> = VecDeque::with_capacity(5);
    let pos: Pos = (&size.0 - 1, 1);
    for i in 0..5 {
        snake.push_back((pos.0, pos.1 + i))
    }
    draw_field(size, &snake, (5, 5));
    let dir = build_path(size, &snake, (5, 5));
    assert_eq!(dir, Ok(Direction::Left));
}

#[test]
fn right() {
    let size: Size = (10u16, 10u16);
    let mut snake: VecDeque<Pos> = VecDeque::with_capacity(5);
    let pos: Pos = (1, 1);
    for i in 0..5 {
        snake.push_back((pos.0, pos.1 + i))
    }
    draw_field(size, &snake, (5, 5));
    let dir = build_path(size, &snake, (5, 5));
    assert_eq!(dir, Ok(Direction::Right));
}

#[test]
fn neighbours_in_the_middle() {
    assert_eq!(get_neighbours(&(5, 5)), vec![(4, 5), (5, 4), (6, 5), (5, 6)]);
}

#[test]
fn neighbours_at_the_origin() {
    assert_eq!(get_neighbours(&(0, 0)), vec![(1, 0), (0, 1)]);
}

#[test]
fn neighbours_on_the_left_edge() {
    assert_eq!(get_neighbours(&(0, 3)), vec![(0, 2), (1, 3), (0, 4)]);
}

#[test]
fn neighbours_at_the_end_of_the_range() {
    assert_eq!(get_neighbours(&(65535, 65535)), vec![(65534, 65535), (65535, 65534)]);
    assert_eq!(get_neighbours(&(65535, 0)), vec![(65534, 0), (65535, 1)]);
}

#[test]
fn distance_is_squared() {
    assert_eq!(get_distance(&(0, 0), &(3, 4)), 25);
    assert_eq!(get_distance(&(3, 4), &(0, 0)), 25);
    assert_eq!(get_distance(&(7, 7), &(7, 7)), 0);
    assert_eq!(get_distance(&(2, 9), &(2, 4)), 25);
}

#[test]
fn distance_across_the_whole_range() {
    assert_eq!(get_distance(&(0, 0), &(65535, 65535)), 8589672450);
    assert_eq!(get_distance(&(65535, 0), &(0, 65535)), 8589672450);
}

#[test]
fn nearest_is_the_closest_candidate() {
    let work: Vec<Pos> = vec![(0, 0), (4, 4), (9, 9)];
    assert_eq!(find_nearest(&work, &(5, 5)), 1);
}

#[test]
fn nearest_of_equals_is_the_last() {
    let work: Vec<Pos> = vec![(4, 5), (9, 9), (6, 5), (5, 4), (0, 0)];
    assert_eq!(find_nearest(&work, &(5, 5)), 3);
    let one: Vec<Pos> = vec![(1, 1)];
    assert_eq!(find_nearest(&one, &(5, 5)), 0);
}

#[test]
fn has_finds_a_cell() {
    let cells: Vec<Pos> = vec![(1, 2), (3, 4)];
    assert!(has(&cells, &(3, 4)));
    assert!(!has(&cells, &(4, 3)));
    assert!(!has(&Vec::new(), &(0, 0)));
}

#[test]
fn direction_of_each_step() {
    assert_eq!(direction_to(&(5, 5), &(6, 5)), Ok(Direction::Right));
    assert_eq!(direction_to(&(5, 5), &(4, 5)), Ok(Direction::Left));
    assert_eq!(direction_to(&(5, 5), &(5, 6)), Ok(Direction::Down));
    assert_eq!(direction_to(&(5, 5), &(5, 4)), Ok(Direction::Up));
}

#[test]
fn direction_to_the_head_itself_fails() {
    assert_eq!(direction_to(&(5, 5), &(5, 5)), Err(PlanningFailure::NoStep));
}

#[test]
fn empty_snake_has_no_plan() {
    let snake: VecDeque<Pos> = VecDeque::new();
    assert_eq!(build_path((10, 10), &snake, (5, 5)), Err(PlanningFailure::NoHead));
}

#[test]
fn food_next_to_the_head() {
    let snake = snake_of(&[(5, 5), (4, 5), (3, 5), (2, 5), (1, 5)]);
    assert_eq!(build_path((10, 10), &snake, (6, 5)), Ok(Direction::Right));
    assert_eq!(build_path((10, 10), &snake, (5, 4)), Ok(Direction::Up));
    assert_eq!(build_path((10, 10), &snake, (5, 6)), Ok(Direction::Down));
}

#[test]
fn food_behind_the_snake_is_gone_around() {
    let snake = snake_of(&[(5, 5), (4, 5), (3, 5), (2, 5), (1, 5)]);
    assert_eq!(build_path((10, 10), &snake, (0, 5)), Ok(Direction::Down));
}

#[test]
fn enclosed_food_is_out_of_reach() {
    let snake = snake_of(&[(3, 0), (2, 0), (1, 0), (1, 1), (0, 1)]);
    draw_field((10, 10), &snake, (0, 0));
    assert_eq!(build_path((10, 10), &snake, (0, 0)), Err(PlanningFailure::Unreachable));
}

#[test]
fn enclosed_head_is_out_of_reach() {
    let snake = snake_of(&[(0, 0), (1, 0), (1, 1), (0, 1)]);
    assert_eq!(build_path((10, 10), &snake, (5, 5)), Err(PlanningFailure::Unreachable));
}

#[test]
fn food_off_the_field_is_out_of_reach() {
    let snake = snake_of(&[(5, 5), (4, 5), (3, 5), (2, 5), (1, 5)]);
    assert_eq!(build_path((10, 10), &snake, (20, 20)), Err(PlanningFailure::Unreachable));
}

#[test]
fn same_snapshot_same_plan() {
    let snake = snake_of(&[(7, 2), (7, 3), (6, 3), (5, 3), (5, 4), (5, 5)]);
    let first = build_path((12, 9), &snake, (2, 7));
    let second = build_path((12, 9), &snake, (2, 7));
    assert_eq!(first, second);
    assert_eq!(first, Ok(Direction::Left));
}

#[test]
fn inspection_stops_at_the_food() {
    let snake = snake_of(&[(5, 5), (4, 5), (3, 5), (2, 5), (1, 5)]);
    let seen: CellSet = inspect((10, 10), &snake, (7, 5));
    assert_eq!(seen.len(), 2);
    assert!(seen.contains((6, 5)));
    assert!(seen.contains((7, 5)));
    assert!(!seen.contains((5, 5)));
    assert!(!seen.contains((8, 5)));
}

#[test]
fn inspection_covers_what_the_head_can_reach() {
    let snake = snake_of(&[(0, 0), (1, 0), (1, 1), (0, 1)]);
    let seen: CellSet = inspect((10, 10), &snake, (5, 5));
    assert_eq!(seen.len(), 0);
    let open = snake_of(&[(0, 0), (1, 0)]);
    let all: CellSet = inspect((3, 3), &open, (9, 9));
    assert_eq!(all.len(), 7);
    assert!(!all.contains((0, 0)));
    assert!(!all.contains((1, 0)));
    assert!(all.contains((2, 2)));
}

#[test]
fn labels_count_steps_from_the_food() {
    let mut region = CellSet::new();
    region.insert((1, 0));
    region.insert((2, 0));
    region.insert((3, 0));
    let (labels, level) = label(&region, &(4, 0), &(0, 0)).unwrap();
    assert_eq!(level, 3);
    assert_eq!(labels.get((0, 0)), Some(0));
    assert_eq!(labels.get((1, 0)), Some(1));
    assert_eq!(labels.get((2, 0)), Some(2));
    assert_eq!(labels.get((3, 0)), Some(3));
    assert_eq!(labels.get((4, 0)), None);
}

#[test]
fn labels_stop_where_the_region_ends() {
    let mut region = CellSet::new();
    region.insert((1, 0));
    region.insert((3, 0));
    assert!(label(&region, &(4, 0), &(0, 0)).is_none());
    let empty = CellSet::new();
    assert!(label(&empty, &(4, 0), &(0, 0)).is_none());
    let (_, level) = label(&empty, &(1, 0), &(0, 0)).unwrap();
    assert_eq!(level, 0);
}

#[test]
fn one_ring_of_labels() {
    let mut region = CellSet::new();
    region.insert((1, 0));
    region.insert((0, 1));
    let mut labels = CellMap::new();
    labels.insert((0, 0), 0);
    let near: Vec<Pos> = vec![(1, 0), (0, 1), (1, 0), (5, 5)];
    let next = label_ring(&region, &mut labels, &near, 1);
    assert_eq!(labels.get((1, 0)), Some(1));
    assert_eq!(labels.get((0, 1)), Some(1));
    assert_eq!(labels.get((5, 5)), None);
    assert_eq!(labels.get((0, 0)), Some(0));
    assert_eq!(next, vec![(0, 0), (2, 0), (1, 1), (0, 0), (1, 1), (0, 2)]);
}

#[test]
fn step_goes_to_the_lowest_label() {
    let mut labels = CellMap::new();
    labels.insert((6, 5), 3);
    labels.insert((5, 6), 2);
    assert_eq!(choose_step(&(5, 5), &labels), Some((5, 6)));
}

#[test]
fn step_of_equal_labels_is_the_first() {
    let mut labels = CellMap::new();
    labels.insert((6, 5), 2);
    labels.insert((5, 4), 2);
    assert_eq!(choose_step(&(5, 5), &labels), Some((5, 4)));
}

#[test]
fn step_without_labels_is_the_first_neighbour() {
    let labels = CellMap::new();
    assert_eq!(choose_step(&(5, 5), &labels), Some((4, 5)));
    assert_eq!(choose_step(&(0, 0), &labels), Some((1, 0)));
}

fn check(size: Size, cells: &[Pos], food: Pos, expected: Result<Direction, PlanningFailure>) {
    let snake = snake_of(cells);
    assert_eq!(build_path(size, &snake, food), expected);
}

#[test]
fn plans_for_short_and_long_snakes() {
    check((11, 12), &[(9, 3), (8, 3)], (2, 11), Ok(Direction::Down));
    check((10, 7), &[(4, 0), (4, 1), (4, 2), (4, 3), (3, 3), (3, 2), (3, 1), (2, 1), (2, 2), (1, 2), (0, 2), (0, 3)], (3, 1), Ok(Direction::Left));
    check((5, 11), &[(2, 3), (2, 4), (2, 5)], (2, 7), Ok(Direction::Right));
    check((6, 9), &[(1, 4), (1, 3), (0, 3), (0, 4), (0, 5), (0, 6), (1, 6), (1, 7), (1, 8), (0, 8), (0, 7)], (3, 8), Ok(Direction::Down));
    check((8, 8), &[(6, 6), (6, 5), (5, 5), (5, 6), (4, 6), (4, 7), (3, 7), (2, 7)], (7, 3), Ok(Direction::Right));
    check((6, 6), &[(0, 1), (0, 2), (0, 3), (1, 3), (1, 2), (1, 1)], (1, 0), Ok(Direction::Up));
    check((8, 11), &[(2, 2), (2, 1), (1, 1), (1, 2), (1, 3), (2, 3), (2, 4), (2, 5), (1, 5)], (3, 7), Ok(Direction::Right));
    check((6, 8), &[(0, 2), (0, 1), (1, 1), (1, 2), (1, 3), (0, 3), (0, 4), (1, 4), (1, 5), (2, 5)], (2, 4), Err(PlanningFailure::Unreachable));
    check((5, 11), &[(0, 5), (0, 4), (1, 4), (1, 3), (0, 3), (0, 2), (1, 2), (2, 2), (2, 3)], (1, 10), Ok(Direction::Down));
    check((7, 11), &[(4, 6), (4, 5), (4, 4), (5, 4), (6, 4), (6, 5), (6, 6), (5, 6), (5, 7)], (0, 5), Ok(Direction::Left));
    check((8, 12), &[(7, 2), (6, 2), (6, 3), (7, 3)], (2, 1), Ok(Direction::Up));
    check((10, 11), &[(1, 10), (1, 9), (0, 9), (0, 8)], (3, 7), Ok(Direction::Right));
}

#[test]
fn plans_on_narrow_and_wide_fields() {
    check((5, 7), &[(3, 1), (3, 0), (4, 0)], (1, 2), Ok(Direction::Left));
    check((6, 5), &[(0, 1), (0, 0), (1, 0), (1, 1), (1, 2), (1, 3), (2, 3), (2, 4), (1, 4), (0, 4)], (5, 3), Err(PlanningFailure::Unreachable));
    check((10, 11), &[(2, 6), (2, 7), (2, 8), (3, 8), (3, 9), (2, 9), (2, 10), (3, 10), (4, 10), (4, 9)], (7, 5), Ok(Direction::Right));
    check((5, 10), &[(4, 0), (3, 0), (3, 1), (4, 1), (4, 2), (3, 2), (2, 2), (1, 2), (1, 1), (0, 1), (0, 2), (0, 3)], (0, 9), Err(PlanningFailure::Unreachable));
    check((8, 10), &[(7, 9), (6, 9), (5, 9), (5, 8), (5, 7), (6, 7)], (4, 9), Ok(Direction::Up));
    check((7, 5), &[(3, 2), (2, 2), (2, 3), (1, 3), (0, 3), (0, 2), (0, 1)], (3, 1), Ok(Direction::Up));
    check((11, 12), &[(8, 9), (7, 9), (7, 8), (6, 8), (6, 9), (5, 9)], (1, 7), Ok(Direction::Up));
    check((12, 9), &[(5, 2), (5, 3), (5, 4), (4, 4)], (7, 1), Ok(Direction::Right));
    check((6, 10), &[(3, 3), (2, 3)], (2, 0), Ok(Direction::Up));
    check((11, 6), &[(8, 2), (7, 2), (7, 1), (8, 1), (8, 0), (7, 0), (6, 0), (6, 1), (5, 1), (5, 0)], (8, 1), Ok(Direction::Up));
    check((8, 9), &[(5, 5), (5, 4), (6, 4), (7, 4), (7, 3)], (4, 3), Ok(Direction::Left));
    check((11, 5), &[(7, 3)], (5, 0), Ok(Direction::Up));
}

#[test]
fn plans_with_food_in_odd_places() {
    check((6, 8), &[(3, 3), (4, 3), (4, 4), (4, 5), (4, 6), (3, 6), (3, 5), (3, 4), (2, 4), (2, 3), (1, 3), (0, 3), (0, 2), (0, 1)], (1, 4), Ok(Direction::Up));
    check((6, 12), &[(2, 10), (1, 10), (1, 11), (0, 11), (0, 10), (0, 9)], (4, 4), Ok(Direction::Up));
    check((5, 6), &[(0, 3), (0, 4), (0, 5), (1, 5), (2, 5), (2, 4), (2, 3)], (3, 0), Ok(Direction::Right));
    check((6, 6), &[(4, 4), (3, 4), (3, 5), (2, 5), (2, 4), (1, 4)], (5, 1), Ok(Direction::Up));
    check((6, 8), &[(0, 0), (0, 1), (1, 1), (1, 0), (2, 0)], (0, 7), Err(PlanningFailure::Unreachable));
    check((5, 7), &[(1, 2), (2, 2), (3, 2), (3, 1), (2, 1), (2, 0), (1, 0), (1, 1), (0, 1)], (2, 4), Ok(Direction::Down));
    check((5, 11), &[(3, 7), (4, 7), (4, 8), (4, 9), (3, 9), (2, 9), (1, 9), (1, 8), (0, 8), (0, 7), (0, 6), (0, 5), (0, 4), (0, 3)], (1, 7), Ok(Direction::Left));
    check((5, 8), &[(0, 1), (1, 1), (1, 2), (1, 3), (1, 4), (0, 4), (0, 3), (0, 2)], (1, 3), Ok(Direction::Up));
    check((11, 12), &[(7, 5), (7, 6)], (0, 1), Ok(Direction::Left));
    check((5, 12), &[(1, 9), (2, 9), (2, 10), (1, 10)], (3, 1), Ok(Direction::Up));
    check((6, 12), &[(4, 1), (4, 0), (5, 0), (5, 1)], (0, 7), Ok(Direction::Down));
    check((8, 10), &[(5, 5)], (0, 4), Ok(Direction::Left));
}
