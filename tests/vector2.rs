use pusher::Vector2;

#[test]
fn new() {
    assert_eq!(Vector2::new(3, 4), Vector2 { x: 3, y: 4 });
}

#[test]
fn get() {
    let v = Vector2::new(-3, 4);
    assert_eq!(v.get_x(), -3);
    assert_eq!(v.get_y(), 4);
}

#[test]
fn set() {
    let mut v = Vector2::new(-3, 4);
    assert_eq!(v, Vector2 { x: -3, y: 4 });
    v.set(13, -6);
    assert_eq!(v, Vector2 { x: 13, y: -6 });
}

#[test]
fn display() {
    let v = Vector2::new(-4, -5);
    assert_eq!(v.to_string(), String::from("(-4,-5)"))
}

#[test]
fn add() {
    let mut v = Vector2::new(5, 4);
    let w = Vector2::new(6, -3);
    assert_eq!(v + w, Vector2 { x: 11, y: 1 });
    assert_eq!(v, Vector2 { x: 5, y: 4 });
    v += w;
    assert_eq!(v, Vector2 { x: 11, y: 1 });
}

#[test]
fn sub() {
    let mut v = Vector2::new(5, 4);
    let w = Vector2::new(6, -3);
    assert_eq!(v - w, Vector2 { x: -1, y: 7 });
    assert_eq!(v, Vector2 { x: 5, y: 4 });
    v -= w;
    assert_eq!(v, Vector2 { x: -1, y: 7 });
}

#[test]
fn inner_product() {
    let v = Vector2::new(3, 4);
    let w = Vector2::new(3, 4);
    assert_eq!(v * w, 25);
}

#[test]
fn mul() {
    let mut v = Vector2::new(5, 4);
    assert_eq!(v * 3, Vector2 { x: 15, y: 12 });
    assert_eq!(v, Vector2 { x: 5, y: 4 });
    v *= 3;
    assert_eq!(v, Vector2 { x: 15, y: 12 });
}

#[test]
fn div() {
    let mut v = Vector2::new(5, 4);
    assert_eq!(v / 3, Vector2 { x: 1, y: 1 });
    assert_eq!(v, Vector2 { x: 5, y: 4 });
    v /= 3;
    assert_eq!(v, Vector2 { x: 1, y: 1 });
}

#[test]
fn div_rounds_toward_zero() {
    let v = Vector2::new(-7, 7);
    assert_eq!(v / 2, Vector2 { x: -3, y: 3 });
    assert_eq!(v / -2, Vector2 { x: 3, y: -3 });
}

#[test]
fn add_wraps_on_overflow() {
    let v = Vector2::new(i32::MAX, 0);
    assert_eq!(v + Vector2::new(1, 0), Vector2 { x: i32::MIN, y: 0 });
}

#[test]
fn display_of_zero_and_extremes() {
    assert_eq!(Vector2::new(0, 10).to_string(), "(0,10)");
    assert_eq!(Vector2::new(i32::MAX, i32::MIN + 1).to_string(), "(2147483647,-2147483647)");
}
