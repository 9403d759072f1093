use matrix_channel::adapter::{ChannelType, MatrixAdapter};
use matrix_channel::incoming::{read_content, PendingMessage};
use matrix_channel::json::Json;
use matrix_channel::message::{ChannelContent, ChannelUser};
use matrix_channel::outside::Timestamp;

fn adapter() -> MatrixAdapter {
    MatrixAdapter::new(
        "https://h/".to_string(),
        "@bot:h".to_string(),
        "token".to_string(),
        vec![],
    )
}

fn object(members: Vec<(&str, Json)>) -> Json {
    Json::Object(members.into_iter().map(|(k, v)| (k.to_string(), v)).collect())
}

fn text(s: &str) -> Json {
    Json::Text(s.to_string())
}

fn event(sender: &str, content: Vec<(&str, Json)>) -> Json {
    object(vec![
        ("type", text("m.room.message")),
        ("sender", text(sender)),
        ("event_id", text("$e")),
        ("content", object(content)),
    ])
}

fn content(members: Vec<(&str, Json)>) -> Option<ChannelContent> {
    read_content("https://h/", &event("@a:h", members))
}

fn plain(s: &str) -> ChannelContent {
    ChannelContent::Text(s.to_string())
}

fn file(filename: &str) -> ChannelContent {
    ChannelContent::File {
        url: "https://h/_matrix/media/v3/download/s/m".to_string(),
        filename: filename.to_string(),
    }
}

fn command(name: &str, args: &[&str]) -> ChannelContent {
    ChannelContent::Command {
        name: name.to_string(),
        args: args.iter().map(|a| a.to_string()).collect(),
    }
}

fn pending(mentioned: bool) -> PendingMessage {
    PendingMessage {
        room_id: "!r:h".to_string(),
        event_id: "$e".to_string(),
        sender: "@a:h".to_string(),
        content: plain("hi"),
        mentioned,
    }
}

#[test]
fn text_messages_are_read() {
    assert_eq!(content(vec![("msgtype", text("m.text")), ("body", text("hi"))]), Some(plain("hi")));
    assert_eq!(content(vec![("body", text("hi"))]), Some(plain("hi")));
    assert_eq!(content(vec![("msgtype", text("m.notice")), ("body", text("hi"))]), Some(plain("hi")));
    assert_eq!(content(vec![("body", text(""))]), None);
    assert_eq!(content(vec![]), None);
    assert_eq!(read_content("https://h", &Json::Null), None);
}

#[test]
fn commands_are_read() {
    assert_eq!(content(vec![("body", text("/help"))]), Some(command("help", &[])));
    assert_eq!(
        content(vec![("body", text("//run  a\tb  c "))]),
        Some(command("run", &["a", "b", "c"]))
    );
    assert_eq!(content(vec![("body", text("/"))]), Some(command("", &[])));
    assert_eq!(content(vec![("body", text("/a\tb c"))]), Some(command("a\tb", &["c"])));
}

#[test]
fn images_are_read() {
    let url = ("url", text("mxc://s/m"));
    assert_eq!(
        content(vec![("msgtype", text("m.image")), ("body", text("cat")), url]),
        Some(ChannelContent::Image {
            url: "https://h/_matrix/media/v3/download/s/m".to_string(),
            caption: Some("cat".to_string()),
        })
    );
    assert_eq!(
        content(vec![("msgtype", text("m.image")), ("url", text("mxc://s/m"))]),
        Some(ChannelContent::Image {
            url: "https://h/_matrix/media/v3/download/s/m".to_string(),
            caption: None,
        })
    );
    assert_eq!(
        content(vec![("msgtype", text("m.image")), ("body", text("cat"))]),
        Some(plain("[Image: cat]"))
    );
}

#[test]
fn files_are_read() {
    assert_eq!(
        content(vec![
            ("msgtype", text("m.file")),
            ("body", text("b.txt")),
            ("filename", text("f.txt")),
            ("url", text("mxc://s/m")),
        ]),
        Some(file("f.txt"))
    );
    assert_eq!(
        content(vec![("msgtype", text("m.file")), ("body", text("b.txt")), ("url", text("mxc://s/m"))]),
        Some(file("b.txt"))
    );
    assert_eq!(
        content(vec![("msgtype", text("m.file")), ("url", text("mxc://s/m"))]),
        Some(file(""))
    );
    assert_eq!(
        content(vec![("msgtype", text("m.file")), ("body", text("b.txt")), ("url", text("x"))]),
        Some(plain("[File: b.txt]"))
    );
}

#[test]
fn video_and_audio_are_files() {
    assert_eq!(
        content(vec![("msgtype", text("m.video")), ("url", text("mxc://s/m"))]),
        Some(file("video"))
    );
    assert_eq!(
        content(vec![("msgtype", text("m.audio")), ("body", text("a.ogg")), ("url", text("mxc://s/m"))]),
        Some(file("a.ogg"))
    );
    assert_eq!(content(vec![("msgtype", text("m.video"))]), Some(plain("[Video: video]")));
    assert_eq!(content(vec![("msgtype", text("m.audio"))]), Some(plain("[Audio: audio]")));
}

#[test]
fn an_event_brings_a_message() {
    let a = adapter();
    let got = a.read_event("!r:h", &event("@a:h", vec![("body", text("hi"))]));
    assert_eq!(got, Some(pending(false)));
    let got = a.read_event("!r:h", &event("@a:h", vec![("body", text("hi @bot:h!"))])).unwrap();
    assert!(got.mentioned);
}

#[test]
fn own_and_other_events_bring_none() {
    let a = adapter();
    assert_eq!(a.read_event("!r:h", &event("@bot:h", vec![("body", text("hi"))])), None);
    let joined = object(vec![("type", text("m.room.member")), ("sender", text("@a:h"))]);
    assert_eq!(a.read_event("!r:h", &joined), None);
    assert_eq!(a.read_event("!r:h", &Json::Null), None);
}

#[test]
fn a_message_in_a_room_of_two_is_direct() {
    let time = Timestamp { secs: 7, nanos: 9 };
    let message = pending(false).complete_at(Some(2), time);
    assert!(!message.is_group);
    assert_eq!(
        message.metadata,
        vec![
            ("was_mentioned".to_string(), Json::Bool(true)),
            ("is_dm".to_string(), Json::Bool(true)),
        ]
    );
    assert_eq!(message.timestamp, time);
    assert_eq!(message.channel, ChannelType::Matrix);
    assert_eq!(message.platform_message_id, "$e");
    assert_eq!(
        message.sender,
        ChannelUser {
            platform_id: "!r:h".to_string(),
            display_name: "@a:h".to_string(),
            openfang_user: None,
        }
    );
    assert_eq!(message.content, plain("hi"));
    assert_eq!(message.target_agent, None);
    assert_eq!(message.thread_id, None);
}

#[test]
fn a_message_in_a_group_may_mention() {
    let time = Timestamp { secs: 7, nanos: 9 };
    let message = pending(false).complete_at(Some(3), time);
    assert!(message.is_group);
    assert!(message.metadata.is_empty());
    let message = pending(true).complete_at(None, time);
    assert!(message.is_group);
    assert_eq!(message.metadata, vec![("was_mentioned".to_string(), Json::Bool(true))]);
}

#[test]
fn a_message_is_stamped_with_the_time() {
    let before = chrono::Utc::now().timestamp();
    let message = pending(true).complete(Some(2));
    let after = chrono::Utc::now().timestamp();
    assert!(before <= message.timestamp.secs && message.timestamp.secs <= after);
    assert!(message.timestamp.secs >= 0);
    assert!(message.timestamp.nanos < 1_000_000_000);
}
