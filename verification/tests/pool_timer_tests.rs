use dino_backend::sessions_manager::Pool;
use dino_backend::timer::Timer;
use dino_backend::timer::timer_test;
use dino_backend::rng::new_rng;
use dino_backend::rng::rand_below;
use dino_backend::obstacles::random_cactus;
use dino_backend::obstacles::cactus_from_draw;
use dino_backend::obstacles::obstacle_size;

#[test]
fn pool_get_sees_last_push_until_pop() {
    let mut p: Pool<u32> = Pool::new();
    assert!(p.push(1, 10));
    assert!(p.push(2, 20));
    assert_eq!(p.get(1), Some(&10));
    assert_eq!(p.get(2), Some(&20));
    // duplicate key refused, value unchanged
    assert!(!p.push(1, 99));
    assert_eq!(p.get(1), Some(&10));
    // pop removes exactly that key; the other stays retrievable unchanged
    assert_eq!(p.pop(1), Some((1, 10)));
    assert_eq!(p.get(1), None);
    assert_eq!(p.get(2), Some(&20));
    // the key can be pushed again with a new value
    assert!(p.push(1, 30));
    assert_eq!(p.get(1), Some(&30));
    assert_eq!(p.pop(7), None);
    assert_eq!(p.len(), 2);
}

#[test]
fn pool_set_replaces_in_place() {
    let mut p: Pool<u32> = Pool::new();
    assert!(p.push(5, 50));
    assert!(p.push(6, 60));
    assert!(p.set(5, 55));
    assert_eq!(p.get(5), Some(&55));
    assert_eq!(p.get(6), Some(&60));
    assert!(!p.set(9, 90));
    assert_eq!(p.get(9), None);
}

#[test]
fn pool_iteration_order_stable_until_pop() {
    let mut p: Pool<u32> = Pool::new();
    assert!(p.push(1, 10));
    assert!(p.push(2, 20));
    assert!(p.push(3, 30));
    let before: Vec<(u64, u32)> = p.items_ref().clone();
    assert_eq!(before, vec![(1, 10), (2, 20), (3, 30)]);
    // pop swaps the last entry into the hole
    assert_eq!(p.pop(1), Some((1, 10)));
    assert_eq!(p.items_ref().clone(), vec![(3, 30), (2, 20)]);
}

#[test]
fn timer_fires_once_after_deadline() {
    let mut t: Timer<u32> = Timer::new();
    let id = t.set_timeout(100, 50, 7);
    assert_eq!(id, 0);
    // not due yet: deadline not passed
    assert_eq!(t.exec_timers(100), Vec::<u32>::new());
    assert_eq!(t.exec_timers(150), Vec::<u32>::new());
    // due: fires once, then is gone
    assert_eq!(t.exec_timers(151), vec![7]);
    assert_eq!(t.exec_timers(1_000), Vec::<u32>::new());
}

#[test]
fn timer_interval_repeats_and_remove_cancels() {
    let mut t: Timer<u32> = Timer::new();
    let rep = t.set_interval(0, 10, 1);
    let once = t.set_timeout(0, 10, 2);
    assert_eq!(t.exec_timers(11), vec![1, 2]);
    // the repeating timer stays, the one-shot is removed
    assert_eq!(t.exec_timers(12), vec![1]);
    t.remove(rep);
    assert_eq!(t.exec_timers(13), Vec::<u32>::new());
    let _ = once;
}

#[test]
fn timer_test_runs() {
    timer_test();
}

#[test]
fn rand_below_respects_bound() {
    let mut rng = new_rng();
    assert_eq!(rand_below(&mut rng, 1), 0);
    for _ in 0..200 {
        assert!(rand_below(&mut rng, 10) < 10);
    }
}

#[test]
fn random_cactus_draws_cacti() {
    // each possible draw maps to a cactus kind no taller than the big one
    for d in 0..10 {
        let o = cactus_from_draw(d);
        assert!(obstacle_size(&o).1 <= 1_064);
        assert!(obstacle_size(&o).0 <= 1_596);
    }
    let mut rng = new_rng();
    for _ in 0..50 {
        let o = random_cactus(&mut rng);
        assert!(obstacle_size(&o).1 <= 1_064);
    }
}
