use matrix_channel::outgoing::Outgoing;
use matrix_channel::streaming::{
    choose_input, failure_counts, input_preview, StreamAction, StreamEvent, StreamState, StreamUpdate,
};
use serde_json::Value;

const SECOND: u128 = 1_000_000_000;
const START: u128 = 100 * SECOND;

fn delta(n: usize) -> StreamEvent {
    StreamEvent::TextDelta { text: "x".repeat(n) }
}

fn start(name: &str) -> StreamEvent {
    StreamEvent::ToolUseStart { name: name.to_string() }
}

fn end(name: &str, input: Value) -> StreamEvent {
    StreamEvent::ToolUseEnd { name: name.to_string(), input }
}

fn result(name: &str, preview: &str, is_error: bool) -> StreamEvent {
    StreamEvent::ToolExecutionResult {
        name: name.to_string(),
        result_preview: preview.to_string(),
        is_error,
    }
}

fn args() -> Value {
    let mut map = serde_json::Map::new();
    map.insert("q".to_string(), Value::String("rust".to_string()));
    Value::Object(map)
}

#[test]
fn the_first_text_is_shown_at_once() {
    let mut s = StreamState::new(START);
    assert_eq!(s.on_event(delta(49), START), StreamAction::Idle);
    assert_eq!(s.on_event(delta(1), START), StreamAction::Refresh);
    assert_eq!(s.text(), "x".repeat(50));
}

#[test]
fn text_is_shown_every_so_often() {
    let mut s = StreamState::new(START);
    assert_eq!(s.on_event(delta(50), START), StreamAction::Refresh);
    let half = START + SECOND / 2;
    assert_eq!(s.on_event(delta(60), half), StreamAction::Idle);
    assert_eq!(s.on_event(delta(0), half + 999_999), StreamAction::Idle);
    assert_eq!(s.on_event(delta(0), half + 1_000_000), StreamAction::Refresh);
    assert_eq!(s.on_event(delta(49), START + 9 * SECOND), StreamAction::Idle);
    assert_eq!(s.on_event(delta(1), START + 9 * SECOND), StreamAction::Refresh);
    // A clock that went back counts as no time at all.
    assert_eq!(s.on_event(delta(99), START), StreamAction::Idle);
}

#[test]
fn an_early_start_has_no_head_start() {
    let mut s = StreamState::new(SECOND);
    assert_eq!(s.on_event(delta(50), SECOND), StreamAction::Idle);
    assert_eq!(s.on_event(delta(0), 2 * SECOND), StreamAction::Refresh);
}

#[test]
fn characters_are_counted_not_bytes() {
    let mut s = StreamState::new(START);
    let wide = StreamEvent::TextDelta { text: "输".repeat(49) };
    assert_eq!(s.on_event(wide, START), StreamAction::Idle);
}

#[test]
fn all_text_is_kept() {
    let mut s = StreamState::new(START);
    for part in ["Hel", "lo ", "输出", ""] {
        s.on_event(StreamEvent::TextDelta { text: part.to_string() }, START);
        s.on_event(start("bash"), START);
    }
    assert_eq!(s.text(), "Hello 输出");
    assert_eq!(s.tools().len(), 4);
}

#[test]
fn a_new_reply_is_sent_and_then_edited() {
    let mut s = StreamState::new(START);
    s.on_event(delta(50), START);
    assert_eq!(
        s.compose("<p>hi</p>"),
        StreamUpdate::New(Outgoing::Html { plain: "hi".to_string(), html: "<p>hi</p>".to_string() })
    );
    s.on_shown(StreamAction::Refresh, Some("".to_string()));
    assert!(matches!(s.compose("a"), StreamUpdate::New(_)));
    s.on_shown(StreamAction::Refresh, Some("$1".to_string()));
    s.on_shown(StreamAction::Refresh, Some("$2".to_string()));
    s.on_shown(StreamAction::Refresh, None);
    assert_eq!(
        s.compose("<p>hi</p>"),
        StreamUpdate::Edit {
            event_id: "$1".to_string(),
            plain: "hi".to_string(),
            html: "<p>hi</p>".to_string(),
        }
    );
}

#[test]
fn the_complete_reply_is_not_edited_later() {
    let mut s = StreamState::new(START);
    assert_eq!(s.on_event(StreamEvent::ContentComplete, START), StreamAction::Finish);
    s.on_shown(StreamAction::Finish, Some("$1".to_string()));
    assert!(matches!(s.compose("a"), StreamUpdate::New(_)));
}

#[test]
fn tool_calls_come_first() {
    let mut s = StreamState::new(START);
    assert_eq!(s.on_event(start("bash"), START), StreamAction::Refresh);
    assert_eq!(s.on_event(end("bash", args()), START), StreamAction::Idle);
    assert_eq!(s.on_event(result("bash", "done", false), START), StreamAction::Idle);
    match s.compose("<p>text</p>") {
        StreamUpdate::New(Outgoing::Html { plain, html }) => {
            assert!(html.starts_with("<b>🔧 工具调用 (1)</b><br/>"));
            assert!(html.contains("　　{\"q\":\"rust\"}"));
            assert!(html.ends_with("<br/><p>text</p>"));
            assert!(plain.starts_with("🔧 工具调用 (1)1. 💻 bash"));
            assert!(plain.ends_with("text"));
        }
        _ => panic!("not a new message"),
    }
}

#[test]
fn a_result_is_shown_only_where_the_reply_is() {
    let mut s = StreamState::new(START);
    s.on_event(start("bash"), START);
    s.on_shown(StreamAction::Refresh, Some("$1".to_string()));
    assert_eq!(s.on_event(result("bash", "done", true), START), StreamAction::Refresh);
    assert_eq!(s.on_event(result("bash", "again", false), START), StreamAction::Refresh);
    assert_eq!(
        s.tools(),
        &vec![("bash".to_string(), None, Some("done".to_string()), false, true)]
    );
}

#[test]
fn results_go_to_the_first_running_call() {
    let mut s = StreamState::new(START);
    s.on_event(start("a"), START);
    s.on_event(start("b"), START);
    s.on_event(start("a"), START);
    s.on_event(result("a", "1", false), START);
    s.on_event(end("a", args()), START);
    s.on_event(result("c", "0", false), START);
    let json = Some("{\"q\":\"rust\"}".to_string());
    assert_eq!(
        s.tools(),
        &vec![
            ("a".to_string(), None, Some("1".to_string()), false, false),
            ("b".to_string(), None, None, true, false),
            ("a".to_string(), json, None, true, false),
        ]
    );
}

#[test]
fn other_events_change_nothing() {
    let mut s = StreamState::new(START);
    s.on_event(delta(3), START);
    let phase = StreamEvent::PhaseChange { phase: "p".to_string(), detail: None };
    assert_eq!(s.on_event(phase, START), StreamAction::Idle);
    assert_eq!(s.on_event(StreamEvent::Other, START), StreamAction::Idle);
    let more = StreamEvent::ToolInputDelta { text: "{".to_string() };
    assert_eq!(s.on_event(more, START), StreamAction::Idle);
    assert_eq!(s.text(), "xxx");
    assert!(s.tools().is_empty());
}

#[test]
fn inputs_are_shown_as_json() {
    assert_eq!(input_preview(&args()), "{\"q\":\"rust\"}");
    assert_eq!(input_preview(&Value::Null), "null");
    assert_eq!(input_preview(&Value::String("".to_string())), "\"\"");
    assert_eq!(input_preview(&Value::Array(vec![Value::Bool(true), Value::Null])), "[true,null]");
}

#[test]
fn inputs_fall_back() {
    assert_eq!(choose_input(Some("{}"), "x"), "{}");
    assert_eq!(choose_input(Some("null"), "x"), "x");
    assert_eq!(choose_input(Some(""), ""), "(无参数)");
    assert_eq!(choose_input(None, "x"), "x");
    assert_eq!(choose_input(None, ""), "(无参数)");
}

#[test]
fn only_the_complete_reply_can_fail() {
    let mut s = StreamState::new(START);
    let passed_over = [delta(50), start("bash"), end("bash", args()), result("bash", "1", false)];
    for event in passed_over {
        assert!(!failure_counts(s.on_event(event, START)));
    }
    assert!(failure_counts(s.on_event(StreamEvent::ContentComplete, START)));
}
