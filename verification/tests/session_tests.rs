//! The session manager's table, the per-user actor, and the metrics.

use budget_server::budget::Budget;
use budget_server::json::serialize_budget;
use budget_server::metrics::{Metric, MetricsState, StreamMetrics};
use budget_server::user_threads::{
    ActorStep, SessionTable, UserManagerThreadMessage, UserSession, UserThreadCommandType,
    UserThreadMessage, SECONDS_TO_TIMEOUT_USER_THREAD,
};

#[test]
fn table_records_and_serves_tokens() {
    let mut t = SessionTable::new();
    t.creation(String::from("t1"), 0);
    t.creation(String::from("t2"), 1);
    assert_eq!(t.len(), 2);
    assert_eq!(t.lookup(&String::from("t1")), Some(0));
    assert_eq!(t.lookup(&String::from("t2")), Some(1));
    assert_eq!(t.lookup(&String::from("zz")), None);
}

#[test]
fn logout_removes_the_token() {
    let mut t = SessionTable::new();
    t.creation(String::from("t1"), 0);
    t.creation(String::from("t2"), 1);
    assert_eq!(t.remove_token(&String::from("t1")), Some(0));
    assert_eq!(t.lookup(&String::from("t1")), None);
    assert_eq!(t.lookup(&String::from("t2")), Some(1));
    assert_eq!(t.remove_token(&String::from("t1")), None);
}

#[test]
fn repeated_creation_replaces_the_slot() {
    let mut t = SessionTable::new();
    t.creation(String::from("t1"), 0);
    t.creation(String::from("t1"), 5);
    assert_eq!(t.len(), 1);
    assert_eq!(t.lookup(&String::from("t1")), Some(5));
}

#[test]
fn actor_serves_data_requests() {
    let mut b = Budget::new(String::from("a"));
    b.get_paid_value(100);
    let expected = serialize_budget(&b);
    let mut s = UserSession::start(String::from("uid"), b, 10);
    match s.handle_message(UserThreadCommandType::UserDataRequest, 11) {
        ActorStep::Reply { response, persist } => {
            assert_eq!(response.status, 200);
            assert_eq!(response.body, expected.as_bytes());
            assert!(persist.is_none());
        }
        _ => panic!("expected a reply"),
    }
    assert_eq!(s.last_activity, 11);
}

#[test]
fn actor_runs_commands_and_persists() {
    let b = Budget::new(String::from("a"));
    let mut s = UserSession::start(String::from("uid"), b, 0);
    let cmd = UserThreadCommandType::UserCommand {
        jsondata: String::from("{\"command\":\"setincome\",\"amount\":\"5\"}"),
    };
    match s.handle_message(cmd, 1) {
        ActorStep::Reply { response, persist } => {
            assert_eq!(response.status, 200);
            let saved = persist.expect("a completed command persists");
            assert_eq!(saved, serialize_budget(&s.budget));
            assert_eq!(s.budget.income(), 500);
        }
        _ => panic!("expected a reply"),
    }
    let bad = UserThreadCommandType::UserCommand { jsondata: String::from("not json") };
    match s.handle_message(bad, 2) {
        ActorStep::Reply { response, persist } => {
            assert_eq!(response.status, 400);
            assert!(persist.is_none());
        }
        _ => panic!("expected a reply"),
    }
    let failed = UserThreadCommandType::UserCommand {
        jsondata: String::from("{\"command\":\"pay\",\"label\":\"ghost\"}"),
    };
    match s.handle_message(failed, 3) {
        ActorStep::Reply { response, persist } => {
            assert_eq!(response.status, 400);
            let body = String::from_utf8(response.body).unwrap();
            assert_eq!(body, "{\"error\":\"expense_not_found\"}");
            assert!(persist.is_some());
        }
        _ => panic!("expected a reply"),
    }
}

#[test]
fn actor_times_out_after_the_threshold() {
    let b = Budget::new(String::from("a"));
    let mut s = UserSession::start(String::from("uid"), b, 100);
    let within = s.handle_message(
        UserThreadCommandType::TimeoutCheck,
        100 + SECONDS_TO_TIMEOUT_USER_THREAD,
    );
    assert!(matches!(within, ActorStep::Continue));
    let beyond = s.handle_message(
        UserThreadCommandType::TimeoutCheck,
        101 + SECONDS_TO_TIMEOUT_USER_THREAD,
    );
    assert!(matches!(beyond, ActorStep::Exit));
}

#[test]
fn actor_probe_and_shutdown() {
    let b = Budget::new(String::from("a"));
    let mut s = UserSession::start(String::from("uid"), b, 0);
    assert!(matches!(s.handle_message(UserThreadCommandType::Check, 1), ActorStep::Continue));
    assert!(matches!(s.handle_message(UserThreadCommandType::Shutdown, 2), ActorStep::Exit));
    assert_eq!(s.final_persist(), serialize_budget(&s.budget));
}

#[test]
fn message_constructors_carry_their_fields() {
    let m = UserManagerThreadMessage::creation(7, String::from("uid"), String::from("tok"));
    assert_eq!(m.id, Some(7));
    let c = UserThreadMessage::user_command(Some(3), String::from("{}"));
    assert_eq!(c.id, Some(3));
    assert!(matches!(c.cmd, UserThreadCommandType::UserCommand { .. }));
    let t = UserThreadMessage::timeout_check();
    assert_eq!(t.id, None);
}

#[test]
fn metric_intervals_measure_elapsed_time() {
    let mut m = Metric::new(10);
    assert!(!m.is_done());
    m.end(25);
    assert_eq!(m.end_time, Some(15));
    assert!(m.is_done());
}

#[test]
fn stream_record_completes_when_all_intervals_close() {
    let mut sm = StreamMetrics::new(0, 0);
    sm.thread_start(String::from("authenticator"), 1);
    sm.stream_close(5);
    assert!(!sm.is_done());
    sm.thread_end(&String::from("authenticator"), 4);
    assert!(sm.is_done());
}

#[test]
fn metrics_state_tracks_requests_and_averages() {
    let mut ms = MetricsState::new();
    ms.begin_startup(0);
    let id0 = ms.start(0);
    assert_eq!(id0, 0);
    ms.arrive(id0, String::from("listener"), 1);
    ms.end(id0, &String::from("listener"), 3);
    ms.response_sent(id0, 10);
    let id1 = ms.start(0);
    assert_eq!(id1, 1);
    ms.response_sent(id1, 30);
    let (avg_resp, avg_cpu) = ms.query();
    assert_eq!(avg_resp, 20);
    assert_eq!(avg_cpu, 20);
    // an unfinished request does not drag the averages down
    let id2 = ms.start(0);
    assert_eq!(id2, 2);
    let (avg_resp2, avg_cpu2) = ms.query();
    assert_eq!(avg_resp2, 20);
    assert_eq!(avg_cpu2, 20);
}

#[test]
fn averages_without_completed_records_are_zero() {
    let mut ms = MetricsState::new();
    let _open_request = ms.start(0);
    assert_eq!(ms.query(), (0, 0));
}

#[test]
fn metrics_query_renders_json() {
    let none: Vec<(String, u64)> = Vec::new();
    let s = budget_server::metrics::query_json(12, 7, &none);
    assert_eq!(
        s,
        "{\"average_response_latency\":12,\"average_processor_latency\":7,\"average_thread_latencies\":{}}"
    );
    let some = vec![(String::from("authenticator"), 4u64), (String::from("listener"), 2u64)];
    let s2 = budget_server::metrics::query_json(1, 2, &some);
    assert_eq!(
        s2,
        "{\"average_response_latency\":1,\"average_processor_latency\":2,\"average_thread_latencies\":{\"authenticator\":4,\"listener\":2}}"
    );
}

#[test]
fn per_actor_latency_averages() {
    let mut ms = MetricsState::new();
    let id0 = ms.start(0);
    ms.arrive(id0, String::from("worker"), 0);
    ms.end(id0, &String::from("worker"), 4);
    ms.response_sent(id0, 10);
    let id1 = ms.start(0);
    ms.arrive(id1, String::from("worker"), 0);
    ms.end(id1, &String::from("worker"), 8);
    ms.response_sent(id1, 10);
    let avgs = ms.thread_latency_averages();
    assert_eq!(avgs, vec![(String::from("worker"), 6u64)]);
}
