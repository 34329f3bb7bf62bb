use dino_backend::config_options::ConfigOptions;
use dino_backend::config_options::SessionConfig;
use dino_backend::config_options::SessionExecConfig;
use dino_backend::session_exec::ChannelData;
use dino_backend::session_exec::QueryType;
use dino_backend::session_exec::QueryResponseType;
use dino_backend::session_exec::RxData;
use dino_backend::session_exec::SessionExecutor;
use dino_backend::session_exec::SessionStatusSimplified;
use dino_backend::session_exec::TxData;

fn config(max_sessions: usize, allow_multiple_inactive: bool, max_users: usize)
    -> ConfigOptions {
    ConfigOptions {
        session_exec: SessionExecConfig {
            max_sessions,
            allow_multiple_inactive_sessions: allow_multiple_inactive,
            dummy_sessions: false,
        },
        session: SessionConfig { max_users, max_username_len: 15 },
    }
}

fn connect(ex: &mut SessionExecutor, addr: u64, now: u64) {
    ex.process_channel_msg(ChannelData::Connect { addr }, now);
}

fn send(ex: &mut SessionExecutor, addr: u64, msg: RxData, now: u64) {
    ex.process_channel_msg(ChannelData::Message { addr, msg }, now);
}

fn create_session_msg(name: &str, user: &str, wait: u64) -> RxData {
    RxData::CreateSession {
        username: user.to_string(),
        session_name: name.to_string(),
        wait_time: wait,
    }
}

#[test]
fn session_rejected_at_max_sessions() {
    let mut ex = SessionExecutor::new(config(1, true, 8));
    connect(&mut ex, 1, 0);
    connect(&mut ex, 2, 0);
    send(&mut ex, 1, create_session_msg("S1", "Alice", 60), 0);
    send(&mut ex, 2, create_session_msg("S2", "Bob", 60), 0);
    let q = ex.tx_queue.take_queue();
    assert!(matches!(
        q[0].1,
        TxData::SessionCreationResponse { creation_succeeded: true, .. }
    ));
    // the second request hits the configured maximum
    let last = q.last().unwrap();
    assert_eq!(last.0, vec![2]);
    assert!(matches!(
        last.1,
        TxData::SessionCreationResponse { creation_succeeded: false, session_id: None }
    ));
}

#[test]
fn session_rejected_while_one_waits() {
    // a Waiting session exists and multiple inactive sessions are
    // disallowed
    let mut ex = SessionExecutor::new(config(10, false, 8));
    connect(&mut ex, 1, 0);
    connect(&mut ex, 2, 0);
    send(&mut ex, 1, create_session_msg("S1", "Alice", 60), 0);
    send(&mut ex, 2, create_session_msg("S2", "Bob", 60), 0);
    let q = ex.tx_queue.take_queue();
    let last = q.last().unwrap();
    assert!(matches!(
        last.1,
        TxData::SessionCreationResponse { creation_succeeded: false, session_id: None }
    ));
}

#[test]
fn session_allowed_when_multiple_inactive_allowed() {
    let mut ex = SessionExecutor::new(config(10, true, 8));
    connect(&mut ex, 1, 0);
    connect(&mut ex, 2, 0);
    send(&mut ex, 1, create_session_msg("S1", "Alice", 60), 0);
    send(&mut ex, 2, create_session_msg("S2", "Bob", 60), 0);
    let q = ex.tx_queue.take_queue();
    let successes = q
        .iter()
        .filter(|e| matches!(
            e.1,
            TxData::SessionCreationResponse { creation_succeeded: true, .. }
        ))
        .count();
    assert_eq!(successes, 2);
}

#[test]
fn host_connection_cannot_double_create() {
    let mut ex = SessionExecutor::new(config(10, true, 8));
    connect(&mut ex, 1, 0);
    send(&mut ex, 1, create_session_msg("S1", "Alice", 60), 0);
    let _ = ex.tx_queue.take_queue();
    // the session now owns connection 1 exclusively: a duplicate connect
    // under the same address is refused, and a creation request from it
    // finds no registry channel and is dropped, fail-closed
    connect(&mut ex, 1, 0);
    send(&mut ex, 1, create_session_msg("S2", "Alice", 60), 0);
    assert_eq!(ex.tx_queue.take_queue().len(), 0);
}

#[test]
fn overlong_username_rejects_session_creation() {
    let mut ex = SessionExecutor::new(config(10, true, 8));
    connect(&mut ex, 1, 0);
    send(&mut ex, 1, create_session_msg("S1", "far-too-long-a-username", 60), 0);
    let q = ex.tx_queue.take_queue();
    assert!(matches!(
        q[0].1,
        TxData::SessionCreationResponse { creation_succeeded: false, session_id: None }
    ));
}

#[test]
fn lifecycle_through_the_dispatcher() {
    // create with waitTime 0, observe Waiting, then Countdown on the next
    // tick, then Active once the fixed 4-second countdown has elapsed
    let mut ex = SessionExecutor::new(config(10, true, 8));
    connect(&mut ex, 1, 0);
    send(&mut ex, 1, create_session_msg("S", "Alice", 0), 0);
    let q = ex.tx_queue.take_queue();
    let sid = match q[0].1 {
        TxData::SessionCreationResponse { creation_succeeded: true, session_id: Some(s) } => s,
        _ => panic!("expected a successful session creation"),
    };
    ex.handle_query(9, QueryType::SessionStatus { session_id: sid }, 0);
    let q = ex.tx_queue.take_queue();
    match &q[0].1 {
        TxData::QueryResponse {
            query_res: QueryResponseType::SessionStatus { status, .. },
        } => assert_eq!(*status, "Waiting"),
        _ => panic!("expected a status response"),
    }
    // first tick: the zero-length waiting timer fires
    ex.run(1);
    ex.handle_query(9, QueryType::SessionStatus { session_id: sid }, 1);
    let q = ex.tx_queue.take_queue();
    match &q.last().unwrap().1 {
        TxData::QueryResponse {
            query_res: QueryResponseType::SessionStatus { status, .. },
        } => assert_eq!(*status, "Countdown"),
        _ => panic!("expected a status response"),
    }
    // exactly 4 s later the countdown has not yet expired
    ex.run(4_001);
    ex.handle_query(9, QueryType::SessionStatus { session_id: sid }, 4_001);
    let q = ex.tx_queue.take_queue();
    match &q.last().unwrap().1 {
        TxData::QueryResponse {
            query_res: QueryResponseType::SessionStatus { status, .. },
        } => assert_eq!(*status, "Countdown"),
        _ => panic!("expected a status response"),
    }
    ex.run(4_002);
    ex.handle_query(9, QueryType::SessionStatus { session_id: sid }, 4_002);
    let q = ex.tx_queue.take_queue();
    match &q.last().unwrap().1 {
        TxData::QueryResponse {
            query_res: QueryResponseType::SessionStatus { status, .. },
        } => assert_eq!(*status, "Active"),
        _ => panic!("expected a status response"),
    }
}

#[test]
fn map_pages_disjoint_contiguous_increasing() {
    let mut ex = SessionExecutor::new(config(10, true, 8));
    connect(&mut ex, 1, 0);
    send(&mut ex, 1, create_session_msg("S", "Alice", 60), 0);
    let _ = ex.tx_queue.take_queue();
    send(&mut ex, 1, RxData::MapReq { session_id: 1, user_id: 1, index: 0 }, 0);
    send(&mut ex, 1, RxData::MapReq { session_id: 1, user_id: 1, index: 1 }, 0);
    let q = ex.tx_queue.take_queue();
    assert_eq!(q.len(), 2);
    let page0 = match &q[0].1 {
        TxData::MapData { map } => map,
        _ => panic!("expected a map page"),
    };
    let page1 = match &q[1].1 {
        TxData::MapData { map } => map,
        _ => panic!("expected a map page"),
    };
    assert_eq!(q[0].0, vec![1]);
    assert_eq!(page0.len(), 100);
    assert_eq!(page1.len(), 100);
    for k in 1..100 {
        assert!(page0[k - 1].x < page0[k].x);
        assert!(page1[k - 1].x < page1[k].x);
    }
    assert!(page0[99].x < page1[0].x);
    // the same page again is byte-identical (the course never regenerates)
    send(&mut ex, 1, RxData::MapReq { session_id: 1, user_id: 1, index: 0 }, 0);
    let q = ex.tx_queue.take_queue();
    let again = match &q[0].1 {
        TxData::MapData { map } => map,
        _ => panic!("expected a map page"),
    };
    for k in 0..100 {
        assert_eq!(again[k].x, page0[k].x);
        assert_eq!(again[k].y, page0[k].y);
        assert_eq!(again[k].obstacles, page0[k].obstacles);
    }
}

#[test]
fn create_user_and_login_through_dispatcher() {
    let mut ex = SessionExecutor::new(config(10, true, 8));
    connect(&mut ex, 1, 0);
    send(&mut ex, 1, create_session_msg("S", "Alice", 60), 0);
    let _ = ex.tx_queue.take_queue();
    connect(&mut ex, 2, 0);
    send(&mut ex, 2, RxData::CreateUser { session_id: 1, username: "Bob".to_string() }, 0);
    let q = ex.tx_queue.take_queue();
    let bob = match q[0].1 {
        TxData::UserCreationResponse { creation_succeeded: true, user_id: Some(u) } => u,
        _ => panic!("expected a successful user creation"),
    };
    // Bob reconnects under a fresh address and logs back in
    connect(&mut ex, 3, 0);
    send(&mut ex, 3, RxData::Login { session_id: 1, user_id: bob }, 0);
    let q = ex.tx_queue.take_queue();
    assert_eq!(q[0].0, vec![3]);
    assert!(matches!(q[0].1, TxData::LoginResponse { succeeded: true }));
    // a user creation for an unknown session leaves the registry as it was
    connect(&mut ex, 4, 0);
    send(&mut ex, 4, RxData::CreateUser { session_id: 99, username: "Eve".to_string() }, 0);
    assert_eq!(ex.tx_queue.take_queue().len(), 0);
}

#[test]
fn sessions_listing_reports_names_and_statuses() {
    let mut ex = SessionExecutor::new(config(10, true, 8));
    connect(&mut ex, 1, 0);
    send(&mut ex, 1, create_session_msg("Lobby", "Alice", 60), 0);
    let _ = ex.tx_queue.take_queue();
    ex.handle_query(9, QueryType::Sessions, 0);
    let q = ex.tx_queue.take_queue();
    match &q[0].1 {
        TxData::QueryResponse { query_res: QueryResponseType::Sessions { sessions } } => {
            assert_eq!(sessions.len(), 1);
            assert_eq!(sessions[0].0, 1);
            assert_eq!(sessions[0].1, "Lobby");
            assert_eq!(sessions[0].2, SessionStatusSimplified::Waiting);
            assert_eq!(sessions[0].3, vec!["Alice".to_string()]);
        },
        _ => panic!("expected a sessions listing"),
    }
}

#[test]
fn leaderboard_query_through_dispatcher() {
    let mut ex = SessionExecutor::new(config(10, true, 8));
    connect(&mut ex, 1, 0);
    send(&mut ex, 1, create_session_msg("S", "Alice", 60), 0);
    let _ = ex.tx_queue.take_queue();
    ex.handle_query(9, QueryType::LeaderBoard { session_id: 1 }, 0);
    let q = ex.tx_queue.take_queue();
    match &q[0].1 {
        TxData::QueryResponse {
            query_res: QueryResponseType::LeaderBoard { session_id, scores },
        } => {
            assert_eq!(*session_id, 1);
            assert_eq!(scores.len(), 1);
            assert_eq!(scores[0].0, "Alice");
            assert_eq!(scores[0].1, 0);
        },
        _ => panic!("expected a leaderboard"),
    }
    // a query for an unknown session is dropped
    ex.handle_query(9, QueryType::LeaderBoard { session_id: 99 }, 0);
    assert_eq!(ex.tx_queue.take_queue().len(), 0);
}

#[test]
fn ended_session_leaves_the_table() {
    let mut ex = SessionExecutor::new(config(10, true, 8));
    connect(&mut ex, 1, 0);
    send(&mut ex, 1, create_session_msg("S", "Alice", 0), 0);
    let _ = ex.tx_queue.take_queue();
    ex.run(1);
    ex.run(4_002);
    // the game runs out after its 30-minute maximum
    ex.run(4_002 + 1_800_001);
    ex.handle_query(9, QueryType::Sessions, 4_002 + 1_800_001);
    let q = ex.tx_queue.take_queue();
    match &q.last().unwrap().1 {
        TxData::QueryResponse { query_res: QueryResponseType::Sessions { sessions } } => {
            assert_eq!(sessions.len(), 0);
        },
        _ => panic!("expected a sessions listing"),
    }
}
