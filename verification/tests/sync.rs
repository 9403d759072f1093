use matrix_channel::adapter::MatrixAdapter;
use matrix_channel::json::Json;
use matrix_channel::sync::{Backoff, SyncOutcome, SyncStep};

fn adapter(rooms: &[&str]) -> MatrixAdapter {
    MatrixAdapter::new(
        "https://h".to_string(),
        "@bot:h".to_string(),
        "token".to_string(),
        rooms.iter().map(|r| r.to_string()).collect(),
    )
}

fn object(members: Vec<(&str, Json)>) -> Json {
    Json::Object(members.into_iter().map(|(k, v)| (k.to_string(), v)).collect())
}

fn text(s: &str) -> Json {
    Json::Text(s.to_string())
}

fn event(sender: &str, id: &str, body: &str) -> Json {
    object(vec![
        ("type", text("m.room.message")),
        ("sender", text(sender)),
        ("event_id", text(id)),
        ("content", object(vec![("body", text(body))])),
    ])
}

fn room(events: Vec<Json>) -> Json {
    object(vec![("timeline", object(vec![("events", Json::Array(events))]))])
}

fn answer() -> Json {
    object(vec![
        ("next_batch", text("s2")),
        (
            "rooms",
            object(vec![
                ("invite", object(vec![("!i:h", Json::Null), ("!a:h", Json::Null)])),
                (
                    "join",
                    object(vec![
                        (
                            "!a:h",
                            room(vec![
                                event("@x:h", "$1", "one"),
                                event("@bot:h", "$2", "mine"),
                                event("@x:h", "$3", ""),
                                event("@y:h", "$4", "/two"),
                            ]),
                        ),
                        ("!b:h", room(vec![event("@x:h", "$5", "three")])),
                        ("!c:h", Json::Null),
                    ]),
                ),
            ]),
        ),
    ])
}

fn ids(step: &SyncStep) -> Vec<String> {
    match step {
        SyncStep::Handle(batch) => batch.messages.iter().map(|m| m.event_id.clone()).collect(),
        _ => panic!("nothing to handle"),
    }
}

fn invites(step: &SyncStep) -> Vec<String> {
    match step {
        SyncStep::Handle(batch) => batch.invites.clone(),
        _ => panic!("nothing to handle"),
    }
}

#[test]
fn an_answer_brings_invites_and_messages() {
    let mut a = adapter(&[]);
    let mut backoff = Backoff { secs: 8 };
    let step = a.sync_step(&mut backoff, &SyncOutcome::Answer(answer()));
    assert_eq!(invites(&step), vec!["!i:h", "!a:h"]);
    assert_eq!(ids(&step), vec!["$1", "$4", "$5"]);
    assert_eq!(backoff.secs, 1);
    assert!(a.sync_request().url.ends_with("&since=s2"));
}

#[test]
fn only_allowed_rooms_count() {
    let mut a = adapter(&["!a:h"]);
    let mut backoff = Backoff::new();
    let step = a.sync_step(&mut backoff, &SyncOutcome::Answer(answer()));
    assert_eq!(invites(&step), vec!["!a:h"]);
    assert_eq!(ids(&step), vec!["$1", "$4"]);
}

#[test]
fn an_empty_answer_brings_nothing() {
    let mut a = adapter(&[]);
    a.resume_from(Some("s1".to_string()));
    let mut backoff = Backoff::new();
    for body in [Json::Null, object(vec![]), object(vec![("rooms", Json::Array(vec![]))])] {
        let step = a.sync_step(&mut backoff, &SyncOutcome::Answer(body));
        assert!(invites(&step).is_empty());
        assert!(ids(&step).is_empty());
        assert!(a.sync_request().url.ends_with("&since=s1"));
    }
}

#[test]
fn failures_wait_longer_and_longer() {
    let mut a = adapter(&[]);
    let mut backoff = Backoff::new();
    for expected in [1u64, 2, 4, 8, 16, 32, 60, 60] {
        let outcome = if expected % 8 == 0 {
            SyncOutcome::Refused
        } else {
            SyncOutcome::Unreachable
        };
        assert_eq!(a.sync_step(&mut backoff, &outcome), SyncStep::Wait(expected));
    }
    assert!(a.needs_initial_sync());
    assert_eq!(a.sync_step(&mut backoff, &SyncOutcome::Unreadable), SyncStep::Again);
    assert_eq!(a.sync_step(&mut backoff, &SyncOutcome::Refused), SyncStep::Wait(1));
}

#[test]
fn a_shutdown_stops_the_loop() {
    let mut a = adapter(&[]);
    let mut backoff = Backoff { secs: 4 };
    assert_eq!(a.sync_step(&mut backoff, &SyncOutcome::Shutdown), SyncStep::Stop);
    assert_eq!(backoff.secs, 4);
}
