use dino_backend::validator::AntiCheat;
use dino_backend::validator::AntiCheatConfig;
use dino_backend::validator::PlayerEvent;
use dino_backend::validator::SessionPhysicsConfig;

fn anti_cheat() -> AntiCheat {
    AntiCheat::new(AntiCheatConfig {
        physics: SessionPhysicsConfig {
            initial_vel: 8_000,
            x_acc: 300,
            gravity: -60_000,
            jump_vel: 15_000,
        },
        map: Vec::new(),
        map_req_segment_length: 100,
    })
}

#[test]
fn register_player_rejects_duplicates() {
    let mut v = anti_cheat();
    assert!(v.register_player(1).is_ok());
    assert_eq!(v.register_player(1), Err("Duplicate player"));
    assert!(v.register_player(2).is_ok());
}

#[test]
fn register_event_needs_a_registered_player() {
    let mut v = anti_cheat();
    let e = PlayerEvent::Jump { x: 100, t: 5 };
    assert_eq!(v.register_player_event(1, e, 5), Err("No such registered player"));
    assert!(v.register_player(1).is_ok());
    assert!(v.register_player_event(1, e, 5).is_ok());
}

#[test]
fn register_event_keeps_logs_chronological() {
    let mut v = anti_cheat();
    assert!(v.register_player(1).is_ok());
    assert!(v.register_player_event(1, PlayerEvent::Jump { x: 10, t: 10 }, 10).is_ok());
    assert!(v.register_player_event(1, PlayerEvent::Duck { x: 20, t: 20 }, 20).is_ok());
    // equal timestamps stay accepted; going backwards does not
    assert!(v.register_player_event(1, PlayerEvent::Duck { x: 21, t: 20 }, 20).is_ok());
    assert_eq!(
        v.register_player_event(1, PlayerEvent::Jump { x: 5, t: 5 }, 5),
        Err("Out of order event")
    );
}

#[test]
fn nearest_event_picks_closest_timestamp() {
    let mut v = anti_cheat();
    assert!(v.register_player(1).is_ok());
    let jump = PlayerEvent::Jump { x: 10, t: 10 };
    let duck = PlayerEvent::Duck { x: 20, t: 20 };
    let over = PlayerEvent::GameOverBroadcast { x: 30, t: 40 };
    assert!(v.register_player_event(1, jump, 10).is_ok());
    assert!(v.register_player_event(1, duck, 20).is_ok());
    assert!(v.register_player_event(1, over, 40).is_ok());
    assert_eq!(v.get_nearest_event(0, 1), Some(&jump));
    assert_eq!(v.get_nearest_event(14, 1), Some(&jump));
    assert_eq!(v.get_nearest_event(16, 1), Some(&duck));
    assert_eq!(v.get_nearest_event(20, 1), Some(&duck));
    assert_eq!(v.get_nearest_event(31, 1), Some(&over));
    assert_eq!(v.get_nearest_event(1_000, 1), Some(&over));
}

#[test]
fn nearest_event_prefers_earlier_on_ties() {
    let mut v = anti_cheat();
    assert!(v.register_player(1).is_ok());
    let jump = PlayerEvent::Jump { x: 10, t: 10 };
    let duck = PlayerEvent::Duck { x: 20, t: 20 };
    assert!(v.register_player_event(1, jump, 10).is_ok());
    assert!(v.register_player_event(1, duck, 20).is_ok());
    // 15 is equidistant from 10 and 20: the earlier timestamp wins
    assert_eq!(v.get_nearest_event(15, 1), Some(&jump));
}

#[test]
fn nearest_event_empty_cases() {
    let mut v = anti_cheat();
    assert_eq!(v.get_nearest_event(5, 9), None);
    assert!(v.register_player(9).is_ok());
    assert_eq!(v.get_nearest_event(5, 9), None);
}
