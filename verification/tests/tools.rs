use matrix_channel::tools::{format_tool_calls_html, tool_icon, truncate_text, ToolCallInfo};

fn call(name: &str, input: Option<&str>, output: Option<&str>, is_error: bool) -> ToolCallInfo {
    (
        name.to_string(),
        input.map(String::from),
        output.map(String::from),
        output.is_none(),
        is_error,
    )
}

#[test]
fn tools_have_icons() {
    for (name, icon) in [
        ("web_search", "🌐"),
        ("web_fetch", "🌐"),
        ("read_file", "📄"),
        ("grep", "📄"),
        ("write_file", "✏️"),
        ("replace", "✏️"),
        ("bash", "💻"),
        ("image_read", "🖼️"),
        ("web_search_planning", "🔍"),
        ("list_directory", "📁"),
        ("todo_read", "📋"),
        ("ask_user_question", "❓"),
        ("anything", "🔧"),
        ("", "🔧"),
    ] {
        assert_eq!(tool_icon(name), icon);
    }
}

#[test]
fn long_text_is_truncated() {
    assert_eq!(truncate_text("abcdef", 3, 4), "abcd...");
    assert_eq!(truncate_text("a\nb\nc\nd", 3, 100), "a\nb\nc...");
    assert_eq!(truncate_text("abc\ndef", 3, 4), "abc\n...");
    assert_eq!(truncate_text("abc\ndef", 3, 5), "abc\nd...");
    assert_eq!(truncate_text("\n\nx\ny", 3, 100), "x...");
    assert_eq!(truncate_text("输入输出", 1, 2), "输入...");
    assert_eq!(truncate_text("abc", 0, 10), "...");
    assert_eq!(truncate_text("abc", 3, 0), "...");
}

#[test]
fn text_that_fills_its_room_gets_an_ellipsis() {
    assert_eq!(truncate_text("abcd", 3, 4), "abcd...");
    assert_eq!(truncate_text("", 3, 0), "...");
}

#[test]
fn short_text_is_shown_whole() {
    assert_eq!(truncate_text("abc", 3, 4), "abc");
    assert_eq!(truncate_text("", 3, 4), "");
    assert_eq!(truncate_text("", 0, 1), "");
    assert_eq!(truncate_text("a\n\nb", 3, 5), "a\n\nb");
    assert_eq!(truncate_text("a\rb\nc\r", 2, 7), "a\rb\nc\r");
    assert_eq!(truncate_text("a\r\nb", 3, 10), "a\nb");
}

#[test]
fn truncated_text_keeps_its_limits() {
    for text in ["a\nb\nc\nd\ne", "\n\n\n\nabcdefghij", "x\r\ny\r\nz", "long line without end"] {
        for max_lines in 1..4usize {
            for max_chars in 0..12usize {
                let shown = truncate_text(text, max_lines, max_chars);
                assert!(shown.lines().count() <= max_lines);
                assert!(shown.chars().count() <= max_chars + 3);
            }
        }
    }
}

#[test]
fn nothing_is_shown_of_running_calls() {
    assert_eq!(format_tool_calls_html(&[]), "");
    assert_eq!(format_tool_calls_html(&[call("bash", Some("{}"), None, false)]), "");
}

#[test]
fn a_completed_call_is_shown() {
    let html = format_tool_calls_html(&[
        call("bash", Some("{\"a\":1}"), Some("x < y\nz"), false),
        call("grep", None, None, false),
    ]);
    assert_eq!(
        html,
        "<b>🔧 工具调用 (1)</b><br/><blockquote>1. 💻 <b>bash</b>\
         <br/><br/><blockquote>📥 输入<br/><code>　　{\"a\":1}</code></blockquote>\
         <blockquote> ✅ 输出<br/><code>　　x &lt; y<br/>　　z</code></blockquote>\
         </blockquote><br/>"
    );
}

#[test]
fn completed_calls_are_numbered() {
    let html = format_tool_calls_html(&[
        call("glob", None, Some("one"), false),
        call("bash", None, None, false),
        call("nope", None, Some(""), true),
    ]);
    assert_eq!(
        html,
        "<b>🔧 工具调用 (2)</b><br/>\
         <blockquote>1. 📄 <b>glob</b><blockquote> ✅ 输出<br/><code>　　one</code></blockquote></blockquote>\
         <blockquote>2. 🔧 <b>nope</b><blockquote>❌ 错误 ❌ 错误<br/><code></code></blockquote></blockquote>\
         <br/>"
    );
}

#[test]
fn previews_have_three_lines() {
    let html = format_tool_calls_html(&[call("bash", Some("1\n2\n3\n4"), Some("a\nb\nc\nd\ne"), false)]);
    assert!(html.contains("<code>　　1<br/>　　2<br/>　　3...</code>"));
    assert!(html.contains("<code>　　a<br/>　　b<br/>　　c...</code>"));
}

#[test]
fn previews_have_limits() {
    let long = "x".repeat(300);
    let html = format_tool_calls_html(&[call("bash", Some(&long), Some(&long), false)]);
    assert!(html.contains(&format!("<code>　　{}...</code>", "x".repeat(128))));
    assert!(html.contains(&format!("<code>　　{}...</code>", "x".repeat(256))));
}

#[test]
fn only_completed_calls_are_shown() {
    let done = || call("glob", Some("in"), Some("out"), false);
    let alone = format_tool_calls_html(&[done()]);
    assert_eq!(
        format_tool_calls_html(&[
            call("bash", Some("x"), None, false),
            done(),
            call("grep", None, None, true),
        ]),
        alone
    );
    assert_ne!(alone, "");
}
