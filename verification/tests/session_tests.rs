use dino_backend::config_options::SessionConfig;
use dino_backend::session::Session;
use dino_backend::session::SessionStatus;
use dino_backend::session::PlayerChannel;
use dino_backend::session::curr_score;
use dino_backend::session_exec::TransmissionQueue;
use dino_backend::session_exec::TxData;
use dino_backend::sessions_manager::SessionState;

fn config(max_users: usize, max_username_len: usize) -> SessionConfig {
    SessionConfig { max_users, max_username_len }
}

fn hosted_session(max_users: usize) -> (Session, SessionState, TransmissionQueue) {
    let mut state = SessionState::default();
    let mut queue = TransmissionQueue::new();
    let s = Session::new(&mut state, "S".to_string(), config(max_users, 15), 1);
    let s = s
        .with_host(
            &mut state,
            &mut queue,
            PlayerChannel { addr: 100 },
            "Alice".to_string(),
            100,
            0,
            0,
        )
        .ok()
        .unwrap();
    (s, state, queue)
}

#[test]
fn host_join_enters_waiting() {
    let (_s, state, mut queue) = hosted_session(4);
    assert!(matches!(state.status, SessionStatus::Waiting { .. }));
    let q = queue.take_queue();
    assert_eq!(q.len(), 2);
    assert_eq!(q[0].0, vec![100]);
    assert!(matches!(
        q[0].1,
        TxData::SessionCreationResponse { creation_succeeded: true, session_id: Some(1) }
    ));
    assert!(matches!(
        q[1].1,
        TxData::UserCreationResponse { creation_succeeded: true, user_id: Some(1) }
    ));
}

#[test]
fn host_rejected_when_username_too_long() {
    let mut state = SessionState::default();
    let mut queue = TransmissionQueue::new();
    let s = Session::new(&mut state, "S".to_string(), config(4, 3), 1);
    let r = s.with_host(
        &mut state,
        &mut queue,
        PlayerChannel { addr: 100 },
        "Alice".to_string(),
        100,
        0,
        0,
    );
    let returned = r.err().unwrap();
    assert_eq!(returned.addr, 100);
    assert!(matches!(state.status, SessionStatus::Uninit));
    assert_eq!(queue.take_queue().len(), 0);
}

#[test]
fn third_user_rejected_at_capacity_two() {
    // a session configured with max_users = 2: two successful CreateUser
    // calls, then the third returns creationSucceeded == false
    let mut state = SessionState::default();
    let mut queue = TransmissionQueue::new();
    let mut s = Session::new(&mut state, "S".to_string(), config(2, 15), 1);
    let first = s.create_user(
        &mut state, &mut queue, 101, PlayerChannel { addr: 101 }, "Bob".to_string(), 0);
    assert!(first.is_ok());
    let second = s.create_user(
        &mut state, &mut queue, 102, PlayerChannel { addr: 102 }, "Carol".to_string(), 0);
    assert!(second.is_ok());
    let third = s.create_user(
        &mut state, &mut queue, 103, PlayerChannel { addr: 103 }, "Dave".to_string(), 0);
    assert!(third.is_err());
    let q = queue.take_queue();
    assert!(matches!(
        q[0].1,
        TxData::UserCreationResponse { creation_succeeded: true, user_id: Some(1) }
    ));
    assert!(matches!(
        q[1].1,
        TxData::UserCreationResponse { creation_succeeded: true, user_id: Some(2) }
    ));
    assert!(matches!(
        q[2].1,
        TxData::UserCreationResponse { creation_succeeded: false, user_id: None }
    ));
}

#[test]
fn duplicate_username_rejected() {
    let (mut s, mut state, mut queue) = hosted_session(8);
    let _ = queue.take_queue();
    let r = s.create_user(
        &mut state, &mut queue, 101, PlayerChannel { addr: 101 }, "Alice".to_string(), 0);
    assert!(r.is_err());
    let q = queue.take_queue();
    assert!(matches!(
        q[0].1,
        TxData::UserCreationResponse { creation_succeeded: false, user_id: None }
    ));
}

#[test]
fn overlong_username_rejected_for_guest() {
    let (mut s, mut state, mut queue) = hosted_session(8);
    let _ = queue.take_queue();
    let r = s.create_user(
        &mut state, &mut queue, 101, PlayerChannel { addr: 101 },
        "a-very-long-username-indeed".to_string(), 0);
    assert!(r.is_err());
}

#[test]
fn login_rejects_unknown_user_and_rebinds_known() {
    let (mut s, mut state, mut queue) = hosted_session(8);
    let _ = queue.take_queue();
    // unknown user id: channel handed back, nothing sent
    let r = s.login_user(&mut state, &mut queue, 200, 42, PlayerChannel { addr: 200 });
    let returned = r.err().unwrap();
    assert_eq!(returned.addr, 200);
    assert_eq!(queue.take_queue().len(), 0);
    // the host (user id 1) can re-bind from a new address
    let r = s.login_user(&mut state, &mut queue, 201, 1, PlayerChannel { addr: 201 });
    assert!(r.is_ok());
    let q = queue.take_queue();
    assert_eq!(q[0].0, vec![201]);
    assert!(matches!(q[0].1, TxData::LoginResponse { succeeded: true }));
}

#[test]
fn lifecycle_follows_the_one_way_chain() {
    // Uninit -> Waiting -> Countdown -> Active -> Ended, and no edge back
    let mut state = SessionState::default();
    let mut queue = TransmissionQueue::new();
    assert!(matches!(state.status, SessionStatus::Uninit));
    let s = Session::new(&mut state, "S".to_string(), config(4, 15), 1);
    let mut s = s
        .with_host(&mut state, &mut queue, PlayerChannel { addr: 100 },
            "Alice".to_string(), 100, 60, 0)
        .ok()
        .unwrap();
    assert!(matches!(state.status, SessionStatus::Waiting { .. }));
    // a second launch attempt by a non-host changes nothing
    s.launch_game_req(&mut state, &mut queue, 999, 1);
    assert!(matches!(state.status, SessionStatus::Waiting { .. }));
    // the host launches: Countdown
    s.launch_game_req(&mut state, &mut queue, 1, 1);
    assert!(matches!(state.status, SessionStatus::Countdown { .. }));
    // launching again while counting down is a no-op
    s.launch_game(&mut state, &mut queue, 2);
    assert!(matches!(state.status, SessionStatus::Countdown { .. }));
    // countdown expiry (4 s) activates the game
    let finished = s.game_loop(&mut state, &mut queue, 4_002);
    assert!(!finished);
    assert!(matches!(state.status, SessionStatus::Active { .. }));
    // the game ends once its maximum duration has elapsed
    let finished = s.game_loop(&mut state, &mut queue, 4_002 + 1_800_001);
    assert!(finished);
    assert!(matches!(state.status, SessionStatus::Ended));
    // Ended is terminal
    s.launch_game(&mut state, &mut queue, 4_002 + 1_800_002);
    assert!(matches!(state.status, SessionStatus::Ended));
}

#[test]
fn countdown_lasts_exactly_four_seconds() {
    let (mut s, mut state, mut queue) = hosted_session(4);
    s.launch_game(&mut state, &mut queue, 1_000);
    assert!(matches!(state.status, SessionStatus::Countdown { .. }));
    // at exactly start + 4000 the deadline has not yet passed
    let _ = s.game_loop(&mut state, &mut queue, 5_000);
    assert!(matches!(state.status, SessionStatus::Countdown { .. }));
    let _ = s.game_loop(&mut state, &mut queue, 5_001);
    assert!(matches!(state.status, SessionStatus::Active { .. }));
    let q = queue.take_queue();
    assert!(q.iter().any(|e| matches!(e.1, TxData::GameCountdownStart { duration: 4 })));
    assert!(q.iter().any(|e| matches!(e.1, TxData::GameStart)));
}

#[test]
fn waiting_timer_forces_launch() {
    // waitTime 0: Waiting immediately after creation, Countdown on the
    // next tick
    let (mut s, mut state, mut queue) = hosted_session(4);
    assert!(matches!(state.status, SessionStatus::Waiting { .. }));
    let _ = s.game_loop(&mut state, &mut queue, 1);
    assert!(matches!(state.status, SessionStatus::Countdown { .. }));
    // the forced launch also pre-generates the course
    assert!(state.map.len() >= 100);
    let _ = queue.take_queue();
}

#[test]
fn broadcast_ticks_are_monotonic() {
    let (mut s, mut state, mut queue) = hosted_session(4);
    let _ = queue.take_queue();
    s.on_broadcast_req(&mut state, &mut queue, 1, 500, 1_250, 0);
    s.on_broadcast_req(&mut state, &mut queue, 1, 510, 1_300, 0);
    // unknown sender: dropped
    s.on_broadcast_req(&mut state, &mut queue, 77, 0, 0, 0);
    let q = queue.take_queue();
    assert_eq!(q.len(), 2);
    match &q[0].1 {
        TxData::Broadcast { username, pos_x, pos_y, tick } => {
            assert_eq!(username, "Alice");
            assert_eq!(*pos_x, 1_250);
            assert_eq!(*pos_y, 500);
            assert_eq!(*tick, 1);
        },
        _ => panic!("expected a broadcast"),
    }
    match &q[1].1 {
        TxData::Broadcast { tick, .. } => assert_eq!(*tick, 2),
        _ => panic!("expected a broadcast"),
    }
}

#[test]
fn game_over_finalizes_scores_and_ends_session() {
    let (mut s, mut state, mut queue) = hosted_session(4);
    let r = s.create_user(
        &mut state, &mut queue, 101, PlayerChannel { addr: 101 }, "Bob".to_string(), 0);
    assert!(r.is_ok());
    s.launch_game(&mut state, &mut queue, 0);
    let _ = s.game_loop(&mut state, &mut queue, 4_001);
    assert!(matches!(state.status, SessionStatus::Active { .. }));
    let _ = queue.take_queue();
    // Alice reports game over after 10 s of play
    s.on_game_over(&mut state, &mut queue, 1, 14_001);
    assert!(matches!(state.status, SessionStatus::Active { .. }));
    // Bob reports game over after 20 s: everyone has finished
    s.on_game_over(&mut state, &mut queue, 2, 24_001);
    assert!(matches!(state.status, SessionStatus::Ended));
    // leaderboard is sorted ascending by score and keeps both players
    let board = s.get_leaderboard(&state, 24_002);
    assert_eq!(board.len(), 2);
    assert_eq!(board[0].0, "Alice");
    assert_eq!(board[0].1, curr_score(10_000));
    assert_eq!(board[1].0, "Bob");
    assert_eq!(board[1].1, curr_score(20_000));
    assert!(board[0].1 <= board[1].1);
}

#[test]
fn get_status_reports_per_variant_times() {
    let (mut s, mut state, mut queue) = hosted_session(4);
    // duration 0 at creation: zero seconds left of waiting
    assert_eq!(s.get_status(&state, 0), ("Waiting", 0));
    s.launch_game(&mut state, &mut queue, 1_000);
    assert_eq!(s.get_status(&state, 2_000), ("Countdown", 3));
    let _ = s.game_loop(&mut state, &mut queue, 5_001);
    assert_eq!(s.get_status(&state, 15_001), ("Active", 10));
    let _ = s.game_loop(&mut state, &mut queue, 5_001 + 1_800_001);
    assert_eq!(s.get_status(&state, 5_001 + 1_800_001), ("Ended", 0));
}

#[test]
fn score_formula_exact_values() {
    assert_eq!(curr_score(0), 0);
    // 8 units/s for 4 s plus 0.15 * 16 acceleration term
    assert_eq!(curr_score(4_000), 34);
    assert_eq!(curr_score(10_000), 95);
}

#[test]
fn empty_roster_has_empty_leaderboard() {
    let mut state = SessionState::default();
    let s = Session::new(&mut state, "S".to_string(), config(4, 15), 1);
    let board = s.get_leaderboard(&state, 0);
    assert!(board.is_empty());
}

#[test]
fn map_request_beyond_course_bound_is_dropped() {
    let (mut s, mut state, mut queue) = hosted_session(4);
    let _ = queue.take_queue();
    s.map_req(&mut state, &mut queue, 1, 100);
    assert_eq!(queue.take_queue().len(), 0);
    // an unknown requester is dropped too
    s.map_req(&mut state, &mut queue, 77, 0);
    assert_eq!(queue.take_queue().len(), 0);
    // a valid request from the host answers with the page
    s.map_req(&mut state, &mut queue, 1, 0);
    let q = queue.take_queue();
    assert_eq!(q.len(), 1);
    match &q[0].1 {
        TxData::MapData { map } => assert_eq!(map.len(), 100),
        _ => panic!("expected a map page"),
    }
}
