use widget_layers::geometry::{Point, Rect, Size};
use widget_layers::placement::{check_place, check_space, measure_space, place, Direction};

fn rect(x: i32, y: i32, width: i32, height: i32) -> Rect<i32> {
    Rect { origin: Point { x, y }, size: Size { width, height } }
}

const SPACE: Size<u32> = Size { width: 400, height: 300 };
const SMALL: Size<i32> = Size { width: 30, height: 10 };

#[test]
fn next_clockwise() {
    assert_eq!(Direction::Up.next_clockwise(), Direction::Right);
    assert_eq!(Direction::Right.next_clockwise(), Direction::Down);
    assert_eq!(Direction::Down.next_clockwise(), Direction::Left);
    assert_eq!(Direction::Left.next_clockwise(), Direction::Up);
}

#[test]
fn four_turns_come_back() {
    for start in [Direction::Up, Direction::Right, Direction::Down, Direction::Left] {
        let mut seen = vec![start];
        let mut direction = start.next_clockwise();
        while direction != start {
            assert!(!seen.contains(&direction));
            seen.push(direction);
            direction = direction.next_clockwise();
        }
        assert_eq!(seen.len(), 4);
    }
}

#[test]
fn space_on_each_side() {
    let anchor = rect(100, 120, 40, 20);
    let space = |direction| measure_space(direction, anchor, SPACE);
    assert_eq!(space(Direction::Up), Size { width: 40, height: 120 });
    assert_eq!(space(Direction::Down), Size { width: 40, height: 160 });
    assert_eq!(space(Direction::Left), Size { width: 100, height: 20 });
    assert_eq!(space(Direction::Right), Size { width: 260, height: 20 });
}

#[test]
fn space_of_a_widget_outside_of_what_is_available() {
    // Negative coordinates count as zero.
    let above = rect(-20, -30, 40, 20);
    assert_eq!(measure_space(Direction::Up, above, SPACE), Size { width: 40, height: 0 });
    assert_eq!(measure_space(Direction::Left, above, SPACE), Size { width: 0, height: 20 });
    // There is no space to the right of something that reaches past the end.
    let wide = rect(390, 0, 40, 20);
    assert_eq!(measure_space(Direction::Right, wide, SPACE), Size { width: 0, height: 20 });
    // Nor can the space below be told of something that reaches past the bottom.
    assert!(check_space(Direction::Down, rect(0, 280, 40, 20), SPACE));
    assert!(!check_space(Direction::Down, rect(0, 281, 40, 20), SPACE));
    assert!(check_space(Direction::Up, rect(0, 281, 40, 20), SPACE));
}

#[test]
fn place_on_each_side() {
    let anchor = rect(100, 120, 40, 20);
    let at = |direction| place(direction, anchor, SMALL, SPACE);
    assert_eq!(at(Direction::Up), rect(105, 110, 30, 10));
    assert_eq!(at(Direction::Down), rect(105, 140, 30, 10));
    assert_eq!(at(Direction::Left), rect(70, 125, 30, 10));
    assert_eq!(at(Direction::Right), rect(140, 125, 30, 10));
}

#[test]
fn place_moves_into_the_available_space() {
    // Off the top and the left.
    assert_eq!(place(Direction::Up, rect(0, 4, 10, 20), SMALL, SPACE), rect(0, 0, 30, 10));
    // Off the right and the bottom.
    assert_eq!(place(Direction::Right, rect(380, 290, 10, 20), SMALL, SPACE), rect(370, 290, 30, 10));
    // What is too large hangs out on the left and at the top.
    let large = Size { width: 500, height: 320 };
    assert_eq!(place(Direction::Down, rect(10, 10, 10, 10), large, SPACE), rect(-100, -20, 500, 320));
}

#[test]
fn place_rounds_halves_toward_zero() {
    let odd = Size { width: 7, height: 5 };
    assert_eq!(place(Direction::Down, rect(100, 100, 9, 9), odd, SPACE), rect(101, 109, 7, 5));
    assert_eq!(place(Direction::Right, rect(100, 100, 9, 9), odd, SPACE), rect(109, 102, 7, 5));
    // A negative size: half of -9 is -4.
    assert_eq!(place(Direction::Down, rect(100, 100, -9, 9), odd, SPACE), rect(93, 109, 7, 5));
}

#[test]
fn place_is_refused_where_coordinates_run_out() {
    let size = Size { width: 10, height: 10 };
    assert!(check_place(Direction::Right, rect(i32::MAX - 20, 0, 10, 10), size));
    assert!(!check_place(Direction::Right, rect(i32::MAX - 19, 0, 10, 10), size));
    assert!(check_place(Direction::Left, rect(i32::MIN + 10, 0, 10, 10), size));
    assert!(!check_place(Direction::Left, rect(i32::MIN + 9, 0, 10, 10), size));
    assert!(check_place(Direction::Up, rect(0, i32::MIN + 10, 10, 10), size));
    assert!(!check_place(Direction::Up, rect(0, i32::MIN + 9, 10, 10), size));
}

#[test]
fn place_at_the_last_coordinate() {
    let size = Size { width: 10, height: 10 };
    let everything = Size { width: u32::MAX, height: u32::MAX };
    assert_eq!(
        place(Direction::Right, rect(i32::MAX - 20, 0, 10, 10), size, everything),
        rect(i32::MAX - 10, 0, 10, 10)
    );
}
