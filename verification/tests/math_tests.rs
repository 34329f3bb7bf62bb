use dino_backend::math::isqrt;
use dino_backend::math::jump_time;
use dino_backend::math::jump_time_above_height;
use dino_backend::math::x_above_jump_height_c_v;
use dino_backend::math::x_above_jump_height_c_acc;
use dino_backend::math::jump_height;
use dino_backend::math::jump_height_at_t;
use dino_backend::math::jump_height_at_x;
use dino_backend::math::jump_distance_c_v;
use dino_backend::math::jump_distance_c_acc;

#[test]
fn jump_test() {
    // this test will always pass LOL
    let uy = 20_000; // y velocity
    let g = -10_000; // gravity
    let ux = 5_000; // x velocity
    let ax = 2_000; // acceleration
    println!("jump time: {}", jump_time(uy, g));
    println!("jump height: {}", jump_height(uy, g));
    println!("jump height at x: {} ", jump_height_at_x(5_000, ux, ax, uy, g));
    println!("jump distance at constant vel: {}", jump_distance_c_v(ux, uy, g));
    println!("jump distance at constant acc: {}", jump_distance_c_acc(ux, ax, uy, g));
    println!("jump time above height: {:?}", jump_time_above_height(10_000, uy, g));
    println!(
        "jump x above height constant vel: {:?}",
        x_above_jump_height_c_v(ux, 10_000, uy, g)
    );
    println!(
        "jump x above height constant acc: {:?}",
        x_above_jump_height_c_acc(ux, ax, 10_000, uy, g)
    );
    assert!(true) //e
}

#[test]
fn isqrt_exact_values() {
    assert_eq!(isqrt(0), 0);
    assert_eq!(isqrt(1), 1);
    assert_eq!(isqrt(3), 1);
    assert_eq!(isqrt(4), 2);
    assert_eq!(isqrt(200_000_000), 14_142);
    assert_eq!(isqrt(u64::MAX), 4_294_967_295);
}

#[test]
fn jump_time_exact_values() {
    // t = -2*uy/g, in milliseconds
    assert_eq!(jump_time(20_000, -10_000), 4_000);
    assert_eq!(jump_time(15_000, -60_000), 500);
}

#[test]
fn jump_height_exact_values() {
    // peak of the (20, -10) jump is 20 units
    assert_eq!(jump_height(20_000, -10_000), 20_000);
    // h(t) = uy*t + g*t^2/2 at t = 1s
    assert_eq!(jump_height_at_t(1_000, 20_000, -10_000), 15_000);
}

#[test]
fn time_above_height_exact_window() {
    // discriminant 4e8 - 2e8 = 2e8, sqrt = 14142
    let w = jump_time_above_height(10_000, 20_000, -10_000);
    assert_eq!(w, Some((585, 3_414)));
    let x = x_above_jump_height_c_v(5_000, 10_000, 20_000, -10_000);
    assert_eq!(x, Some((2_925, 17_070)));
}

#[test]
fn unreachable_height_is_signalled() {
    // the peak of the (20, -10) jump is 20 units: anything above is
    // reported as unreachable, not as a numeric artefact
    assert_eq!(jump_time_above_height(20_001, 20_000, -10_000), None);
    assert_eq!(jump_time_above_height(25_000, 20_000, -10_000), None);
    assert_eq!(x_above_jump_height_c_acc(5_000, 2_000, 25_000, 20_000, -10_000), None);
    // the peak itself is still reachable
    assert!(jump_time_above_height(20_000, 20_000, -10_000).is_some());
}

#[test]
fn jump_distances() {
    // constant velocity: d = ux * t
    assert_eq!(jump_distance_c_v(5_000, 20_000, -10_000), 20_000);
    // constant acceleration adds ax*t^2/2 = 2_000 * 16 / 2 = 16_000
    assert_eq!(jump_distance_c_acc(5_000, 2_000, 20_000, -10_000), 36_000);
}
