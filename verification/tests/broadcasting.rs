use tts_air::broadcast::{event_reply, Broadcaster, ReadEvent};
use tts_air::client::client_reply;

fn fresh(upstream: bool) -> Broadcaster {
    let mut b = Broadcaster::new("1.0".to_string());
    b.refresh_state(upstream);
    b
}

#[test]
fn state_frame_rebuilt_only_on_flip() {
    let mut b = Broadcaster::new("1.0".to_string());
    b.refresh_state(false);
    let first = b.state_json.clone();
    assert_eq!(
        first,
        "{\"method\":\"info\",\"args\":{\"proxy_version\":\"1.0\",\"is_connected\":false}}"
    );
    b.refresh_state(false);
    assert_eq!(b.state_json, first);
    b.refresh_state(true);
    assert_eq!(
        b.state_json,
        "{\"method\":\"info\",\"args\":{\"proxy_version\":\"1.0\",\"is_connected\":true}}"
    );
}

#[test]
fn first_registration_drains_backlog() {
    let mut b = fresh(true);
    assert!(!b.consumer_active);
    let drain = b.register(1, "null".to_string(), true);
    assert!(drain);
    assert!(b.consumer_active);
    let drain = b.register(2, "null".to_string(), true);
    assert!(!drain);
}

#[test]
fn one_message_reaches_every_live_connection_once() {
    let mut b = fresh(true);
    for key in 0..3 {
        b.register(key, "null".to_string(), true);
    }
    let msg = "{\"method\":\"tts_message\",\"args\":{\"message\":\"m\"}}".to_string();
    for i in 0..3 {
        let plan = b.conn_plan(i, &ReadEvent::Idle, None, Some(&msg));
        assert!(!plan.drop_now);
        assert_eq!(plan.sends, vec![msg.clone()]);
    }
}

#[test]
fn one_failing_connection_leaves_the_rest_untouched() {
    let mut b = fresh(true);
    for key in [10, 20, 30] {
        b.register(key, "null".to_string(), true);
    }
    let plan = b.conn_plan(1, &ReadEvent::Failed, None, None);
    assert!(plan.drop_now);
    assert!(plan.sends.is_empty());
    b.remove(1);
    assert_eq!(b.conns.len(), 2);
    assert_eq!(b.conns[0].key, 10);
    assert_eq!(b.conns[1].key, 30);
    assert!(b.consumer_active);
    assert_eq!(b.cached_state, Some(true));
    let msg = "m".to_string();
    for i in 0..2 {
        let plan = b.conn_plan(i, &ReadEvent::Idle, None, Some(&msg));
        assert!(!plan.drop_now);
        assert_eq!(plan.sends, vec![msg.clone()]);
    }
}

#[test]
fn close_frame_removes_the_connection() {
    let mut b = fresh(false);
    b.register(1, "null".to_string(), true);
    let plan = b.conn_plan(0, &ReadEvent::Closed, None, None);
    assert!(plan.drop_now);
    b.remove(0);
    b.sweep_end();
    assert!(!b.consumer_active);
}

#[test]
fn each_transition_notified_exactly_once() {
    let mut b = fresh(true);
    b.register(1, "null".to_string(), true);
    // connected -> disconnected
    b.refresh_state(false);
    let plan = b.conn_plan(0, &ReadEvent::Idle, None, None);
    assert!(plan.state_included);
    assert_eq!(plan.sends, vec![b.state_json.clone()]);
    b.mark_notified(0);
    let plan = b.conn_plan(0, &ReadEvent::Idle, None, None);
    assert!(!plan.state_included);
    assert!(plan.sends.is_empty());
    // disconnected -> connected
    b.refresh_state(true);
    let plan = b.conn_plan(0, &ReadEvent::Idle, None, None);
    assert!(plan.state_included);
    b.mark_notified(0);
    let plan = b.conn_plan(0, &ReadEvent::Idle, None, None);
    assert!(!plan.state_included);
}

#[test]
fn late_joiner_gets_current_state_not_history() {
    let mut b = fresh(true);
    b.refresh_state(false);
    b.refresh_state(true);
    // the joiner is told the current state once at registration, and its
    // cache starts there: the next sweep owes it nothing
    b.register(5, "null".to_string(), true);
    assert!(b.conns[0].notified_state);
    let plan = b.conn_plan(0, &ReadEvent::Idle, None, None);
    assert!(!plan.state_included);
    assert!(plan.sends.is_empty());
}

#[test]
fn consumer_flag_follows_the_live_set() {
    let mut b = fresh(true);
    assert!(!b.consumer_active);
    b.register(1, "null".to_string(), true);
    assert!(b.consumer_active);
    b.remove(0);
    b.sweep_end();
    assert!(!b.consumer_active);
    // a fresh joiner is the first again, so the backlog is dropped anew
    assert!(b.register(2, "null".to_string(), true));
}

#[test]
fn sends_are_ordered_reply_message_state() {
    let mut b = fresh(true);
    b.register(1, "null".to_string(), true);
    b.refresh_state(false);
    let reply = client_reply("{\"id\":9}");
    assert!(reply.is_some());
    let msg = "m".to_string();
    let plan = b.conn_plan(0, &ReadEvent::Text { text: "{\"id\":9}".to_string() }, reply, Some(&msg));
    assert!(!plan.drop_now);
    assert!(plan.state_included);
    assert_eq!(
        plan.sends,
        vec!["{\"id\":9,\"data\":\"\"}".to_string(), msg, b.state_json.clone()]
    );
}

#[test]
fn event_reply_only_answers_integer_ids() {
    let r = event_reply(&ReadEvent::Text { text: "{\"id\":5}".to_string() });
    assert_eq!(r, Some("{\"id\":5,\"data\":\"\"}".to_string()));
    assert_eq!(event_reply(&ReadEvent::Text { text: "{\"id\":null}".to_string() }), None);
    assert_eq!(event_reply(&ReadEvent::Idle), None);
    assert_eq!(event_reply(&ReadEvent::Other), None);
    assert_eq!(event_reply(&ReadEvent::Closed), None);
}

#[test]
fn failed_admission_write_admits_nobody() {
    let mut b = fresh(true);
    let frame = b.admission_frame();
    assert_eq!(frame, b.state_json);
    let drain = b.register(1, "null".to_string(), false);
    assert!(!drain);
    assert!(b.conns.is_empty());
    assert!(!b.consumer_active);
    // the next joiner whose write succeeds is still the first
    assert!(b.register(2, "null".to_string(), true));
}
