use ball_game::config::UNIT;
use ball_game::direction::Direction;

fn norm_squared(d: Direction) -> i128 {
    let x = d.x() as i128;
    let y = d.y() as i128;
    x * x + y * y
}

fn assert_unit(d: Direction) {
    let s = UNIT as i128;
    let n = norm_squared(d);
    assert!(n <= s * s, "too long: {:?}", d);
    assert!(n > s * s - 4 * s - 2, "too short: {:?}", d);
}

#[test]
fn zero_vector_has_no_heading() {
    assert!(Direction::from_vector(0, 0).is_none());
}

#[test]
fn axes_have_full_length() {
    let e = Direction::from_vector(1, 0).unwrap();
    assert_eq!((e.x(), e.y()), (1_000_000, 0));
    let w = Direction::from_vector(-1, 0).unwrap();
    assert_eq!((w.x(), w.y()), (-1_000_000, 0));
    let n = Direction::from_vector(0, 1).unwrap();
    assert_eq!((n.x(), n.y()), (0, 1_000_000));
    let s = Direction::from_vector(0, -1).unwrap();
    assert_eq!((s.x(), s.y()), (0, -1_000_000));
    let far = Direction::from_vector(i32::MAX, 0).unwrap();
    assert_eq!((far.x(), far.y()), (1_000_000, 0));
    let low = Direction::from_vector(0, i32::MIN).unwrap();
    assert_eq!((low.x(), low.y()), (0, -1_000_000));
}

#[test]
fn east_is_the_positive_x_axis() {
    let e = Direction::east();
    assert_eq!((e.x(), e.y()), (1_000_000, 0));
    assert_eq!(e, Direction::from_vector(5, 0).unwrap());
}

#[test]
fn diagonals_round_towards_zero() {
    let d = Direction::from_vector(1, 1).unwrap();
    assert_eq!((d.x(), d.y()), (707_106, 707_106));
    let d = Direction::from_vector(-1, 1).unwrap();
    assert_eq!((d.x(), d.y()), (-707_106, 707_106));
    let d = Direction::from_vector(1, -1).unwrap();
    assert_eq!((d.x(), d.y()), (707_106, -707_106));
    let d = Direction::from_vector(-1, -1).unwrap();
    assert_eq!((d.x(), d.y()), (-707_106, -707_106));
}

#[test]
fn three_four_five() {
    let d = Direction::from_vector(3, 4).unwrap();
    assert_eq!((d.x(), d.y()), (600_000, 800_000));
    let d = Direction::from_vector(-300, 400).unwrap();
    assert_eq!((d.x(), d.y()), (-600_000, 800_000));
}

#[test]
fn scaling_rounds_down() {
    // 1 / sqrt(5) = 0.4472135..., 2 / sqrt(5) = 0.8944271...
    let d = Direction::from_vector(1, 2).unwrap();
    assert_eq!((d.x(), d.y()), (447_213, 894_427));
    // 1 / sqrt(1 + 999999^2) is just above one millionth
    let d = Direction::from_vector(1, 999_999).unwrap();
    assert_eq!((d.x(), d.y()), (1, 999_999));
}

#[test]
fn headings_have_length_one() {
    let parts = [i32::MIN, -999_999, -7, -1, 0, 1, 2, 12_345, 999_999, i32::MAX];
    for &x in parts.iter() {
        for &y in parts.iter() {
            match Direction::from_vector(x, y) {
                Some(d) => {
                    assert_unit(d);
                    assert_eq!(d.x().signum(), if d.x() == 0 { 0 } else { (x as i64).signum() });
                    assert_eq!(d.y().signum(), if d.y() == 0 { 0 } else { (y as i64).signum() });
                }
                None => assert!(x == 0 && y == 0),
            }
        }
    }
}

#[test]
fn flipping_negates_and_keeps_length() {
    let d = Direction::from_vector(3, -4).unwrap();
    let same = d.flipped(false, false);
    assert_eq!(same, d);
    let fx = d.flipped(true, false);
    assert_eq!((fx.x(), fx.y()), (-600_000, -800_000));
    let fy = d.flipped(false, true);
    assert_eq!((fy.x(), fy.y()), (600_000, 800_000));
    let both = d.flipped(true, true);
    assert_eq!((both.x(), both.y()), (-600_000, 800_000));
    assert_eq!(both.flipped(true, true), d);
    assert_eq!(norm_squared(fx), norm_squared(d));
    assert_eq!(norm_squared(fy), norm_squared(d));
    assert_eq!(norm_squared(both), norm_squared(d));
}
