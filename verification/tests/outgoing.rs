use matrix_channel::adapter::MatrixAdapter;
use matrix_channel::json::Json;
use matrix_channel::message::ChannelContent;
use matrix_channel::outgoing::{edited_event, html_fallback, plan_content, plan_text, Outgoing};
use matrix_channel::requests::{ApiReply, HttpMethod};

fn adapter() -> MatrixAdapter {
    MatrixAdapter::new(
        "https://h".to_string(),
        "@bot:h".to_string(),
        "token".to_string(),
        vec![],
    )
}

fn object(members: Vec<(&str, Json)>) -> Json {
    Json::Object(members.into_iter().map(|(k, v)| (k.to_string(), v)).collect())
}

fn text(s: &str) -> Json {
    Json::Text(s.to_string())
}

fn strings(list: &[&str]) -> Vec<String> {
    list.iter().map(|s| s.to_string()).collect()
}

fn accepted(event_id: &str) -> ApiReply {
    ApiReply::Accepted(object(vec![("event_id", text(event_id))]))
}

fn text_body(s: &str) -> Json {
    object(vec![("msgtype", text("m.text")), ("body", text(s))])
}

fn html_body(plain: &str, html: &str) -> Json {
    object(vec![
        ("msgtype", text("m.text")),
        ("body", text(plain)),
        ("format", text("org.matrix.custom.html")),
        ("formatted_body", text(html)),
    ])
}

#[test]
fn pieces_are_sent_in_order() {
    let a = adapter();
    let mut job = a.api_send_message("!r:h", &strings(&["one", "two"]));
    let first = job.request("t1").unwrap();
    assert_eq!(first.method, HttpMethod::Put);
    assert_eq!(first.url, "https://h/_matrix/client/v3/rooms/!r:h/send/m.room.message/t1");
    assert_eq!(first.body, Some(text_body("one")));
    assert_eq!(job.on_reply(&accepted("$1")), Ok(()));
    assert_eq!(job.event_id(), "$1");
    let second = job.request("t2").unwrap();
    assert_eq!(second.body, Some(text_body("two")));
    assert_eq!(job.on_reply(&accepted("$2")), Ok(()));
    assert!(job.request("t3").is_none());
    assert!(job.next_request().is_none());
    assert_eq!(job.event_id(), "$2");
}

#[test]
fn every_request_has_a_transaction_of_its_own() {
    let job = adapter().api_send_message("!r:h", &strings(&["one"]));
    let prefix = "https://h/_matrix/client/v3/rooms/!r:h/send/m.room.message/";
    let a = job.next_request().unwrap().url;
    let b = job.next_request().unwrap().url;
    assert_ne!(a, b);
    let txn: Vec<char> = a.strip_prefix(prefix).unwrap().chars().collect();
    assert_eq!(txn.len(), 36);
    for (i, c) in txn.iter().enumerate() {
        match i {
            8 | 13 | 18 | 23 => assert_eq!(*c, '-'),
            14 => assert_eq!(*c, '4'),
            19 => assert!(['8', '9', 'a', 'b'].contains(c)),
            _ => assert!(c.is_ascii_digit() || ('a'..='f').contains(c)),
        }
    }
}

#[test]
fn a_refused_piece_stops_the_message() {
    let mut job = adapter().api_send_message("!r:h", &strings(&["one", "two"]));
    let refused = ApiReply::Refused {
        status: "429 Too Many Requests".to_string(),
        text: "slow down".to_string(),
    };
    assert_eq!(
        job.on_reply(&refused),
        Err("Matrix API error 429 Too Many Requests: slow down".to_string())
    );
    assert_eq!(job.request("t").unwrap().body, Some(text_body("one")));
    assert_eq!(job.event_id(), "");
}

#[test]
fn an_unnamed_event_has_an_empty_id() {
    let mut job = adapter().api_send_message("!r:h", &strings(&["one"]));
    assert_eq!(job.on_reply(&ApiReply::Accepted(Json::Null)), Ok(()));
    assert_eq!(job.event_id(), "");
    assert!(adapter().api_send_message("!r:h", &vec![]).next_request().is_none());
}

#[test]
fn short_html_is_sent_in_one_piece() {
    let job = adapter().api_send_html_message("!r:h", "bold", "<b>bold</b>", &strings(&["bold"]));
    assert_eq!(job.request("t").unwrap().body, Some(html_body("bold", "<b>bold</b>")));
    let job = adapter().api_send_html_message("!r:h", "", "<b>bold</b>", &strings(&["bold"]));
    assert_eq!(job.request("t").unwrap().body, Some(html_body("bold", "<b>bold</b>")));
}

#[test]
fn long_html_is_sent_as_plain_text() {
    let a = adapter();
    let job = a.api_send_html_message("!r:h", "ab", "<b>ab</b>", &strings(&["a", "b"]));
    assert_eq!(job.request("t").unwrap().body, Some(text_body("a")));

    let fits = "x".repeat(8192);
    let job = a.api_send_html_message("!r:h", "p", &fits, &strings(&["p"]));
    assert_eq!(job.request("t").unwrap().body, Some(html_body("p", &fits)));
    let over = "x".repeat(8193);
    let job = a.api_send_html_message("!r:h", "p", &over, &strings(&["p"]));
    assert_eq!(job.request("t").unwrap().body, Some(text_body("p")));
    // The length counts in bytes.
    let wide = "输".repeat(2731);
    let job = a.api_send_html_message("!r:h", "p", &wide, &strings(&["p"]));
    assert_eq!(job.request("t").unwrap().body, Some(text_body("p")));
}

#[test]
fn content_goes_out_as_text_or_html() {
    assert_eq!(
        plan_content(&ChannelContent::Text("hello".to_string())),
        Outgoing::Text("hello".to_string())
    );
    assert_eq!(
        plan_content(&ChannelContent::Text("<B>hello</B>".to_string())),
        Outgoing::Html { plain: "hello".to_string(), html: "<B>hello</B>".to_string() }
    );
    assert_eq!(
        plan_content(&ChannelContent::File { url: "u".to_string(), filename: "f".to_string() }),
        Outgoing::Text("(Unsupported content type)".to_string())
    );
    assert_eq!(plan_text("<b>", false), Outgoing::Text("<b>".to_string()));
}

#[test]
fn the_fallback_is_measured() {
    assert_eq!(html_fallback("plain", "<b>html</b>"), "plain");
    assert_eq!(html_fallback("", "<b>html</b>"), "html");
    let message = Outgoing::Html { plain: "".to_string(), html: "<i>x</i>".to_string() };
    assert_eq!(message.measured_text(), "x");
    assert_eq!(Outgoing::Text("y".to_string()).measured_text(), "y");
    let job = adapter().send("!r:h", &message, &strings(&["x"]));
    assert_eq!(job.request("t").unwrap().body, Some(html_body("x", "<i>x</i>")));
    let job = adapter().send("!r:h", &Outgoing::Text("y".to_string()), &strings(&["y"]));
    assert_eq!(job.request("t").unwrap().body, Some(text_body("y")));
}

#[test]
fn an_edit_replaces_its_event() {
    let a = adapter();
    let relation = || object(vec![("rel_type", text("m.replace")), ("event_id", text("$e"))]);
    let plain = a.edit_request("!r:h", "$e", "new <b>text</b>", None, "t");
    assert_eq!(plain.method, HttpMethod::Put);
    assert_eq!(plain.url, "https://h/_matrix/client/v3/rooms/!r:h/send/m.room.message/t");
    assert_eq!(
        plain.body,
        Some(object(vec![
            ("msgtype", text("m.text")),
            ("body", text("* new <b>text</b>")),
            ("m.new_content", text_body("new <b>text</b>")),
            ("m.relates_to", relation()),
        ]))
    );
    let html = a.edit_request("!r:h", "$e", "new <b>text</b>", Some("<i>h</i>"), "t");
    assert_eq!(
        html.body,
        Some(object(vec![
            ("msgtype", text("m.text")),
            ("body", text("* new text")),
            ("format", text("org.matrix.custom.html")),
            ("formatted_body", text("<i>h</i>")),
            ("m.new_content", html_body("new text", "<i>h</i>")),
            ("m.relates_to", relation()),
        ]))
    );
    let drawn = a.api_edit_message("!r:h", "$e", "new <b>text</b>", Some("<i>h</i>"));
    assert_eq!(drawn.body, html.body);
    assert_ne!(drawn.url, html.url);
}

#[test]
fn an_edit_has_an_outcome() {
    assert_eq!(edited_event(&accepted("$2")), Ok("$2".to_string()));
    let refused = ApiReply::Refused { status: "500".to_string(), text: "".to_string() };
    assert_eq!(edited_event(&refused), Err("Matrix edit API error 500: ".to_string()));
}
