use matrix_channel::adapter::{ChannelType, MatrixAdapter};
use matrix_channel::json::Json;
use matrix_channel::requests::{
    authenticated_user, get_room_member_count, initial_sync, ApiReply, HttpMethod,
};

fn adapter(rooms: Vec<String>) -> MatrixAdapter {
    MatrixAdapter::new(
        "https://matrix.org".to_string(),
        "@bot:matrix.org".to_string(),
        "secret".to_string(),
        rooms,
    )
}

fn object(members: Vec<(&str, Json)>) -> Json {
    Json::Object(members.into_iter().map(|(k, v)| (k.to_string(), v)).collect())
}

fn text(s: &str) -> Json {
    Json::Text(s.to_string())
}

fn refused() -> ApiReply {
    ApiReply::Refused { status: "403 Forbidden".to_string(), text: "no".to_string() }
}

#[test]
fn test_matrix_adapter_creation() {
    let adapter = MatrixAdapter::new(
        "https://matrix.org".to_string(),
        "@bot:matrix.org".to_string(),
        "access_token".to_string(),
        vec![],
    );
    assert_eq!(adapter.name(), "matrix");
}

#[test]
fn test_matrix_allowed_rooms() {
    let adapter = MatrixAdapter::new(
        "https://matrix.org".to_string(),
        "@bot:matrix.org".to_string(),
        "token".to_string(),
        vec!["!room1:matrix.org".to_string()],
    );
    assert!(adapter.is_allowed_room("!room1:matrix.org"));
    assert!(!adapter.is_allowed_room("!room2:matrix.org"));

    let open = MatrixAdapter::new(
        "https://matrix.org".to_string(),
        "@bot:matrix.org".to_string(),
        "token".to_string(),
        vec![],
    );
    assert!(open.is_allowed_room("!any:matrix.org"));
}

#[test]
fn a_new_adapter_knows_what_it_was_given() {
    let a = adapter(vec![]);
    assert_eq!(a.channel_type(), ChannelType::Matrix);
    assert_eq!(a.homeserver_url(), "https://matrix.org");
    assert_eq!(a.user_id(), "@bot:matrix.org");
    assert_eq!(a.access_token(), "secret");
    assert!(a.auto_accept_invites());
    assert!(a.needs_initial_sync());
}

#[test]
fn requests_without_a_body() {
    let a = adapter(vec![]);
    let whoami = a.whoami_request();
    assert_eq!(whoami.method, HttpMethod::Get);
    assert_eq!(whoami.url, "https://matrix.org/_matrix/client/v3/account/whoami");
    assert!(whoami.body.is_none());
    let members = a.members_request("!r:x");
    assert_eq!(members.method, HttpMethod::Get);
    assert_eq!(members.url, "https://matrix.org/_matrix/client/v3/rooms/!r:x/joined_members");
    let first = a.initial_sync_request();
    assert_eq!(
        first.url,
        "https://matrix.org/_matrix/client/v3/sync?timeout=0&filter={\"room\":{\"timeline\":{\"limit\":0}}}"
    );
}

#[test]
fn an_invite_is_accepted_with_an_empty_object() {
    let join = adapter(vec![]).join_request("!r:x");
    assert_eq!(join.method, HttpMethod::Post);
    assert_eq!(join.url, "https://matrix.org/_matrix/client/v3/rooms/!r:x/join");
    assert_eq!(join.body, Some(Json::Object(vec![])));
}

#[test]
fn a_sync_goes_on_from_its_token() {
    let base = "https://matrix.org/_matrix/client/v3/sync?timeout=30000&filter={\"room\":{\"timeline\":{\"limit\":10}}}";
    let mut a = adapter(vec![]);
    assert_eq!(a.sync_request().url, base);
    a.resume_from(None);
    assert!(a.needs_initial_sync());
    a.resume_from(Some("s42".to_string()));
    assert!(!a.needs_initial_sync());
    assert_eq!(a.sync_request().url, format!("{}&since=s42", base));
    a.resume_from(None);
    assert_eq!(a.sync_request().url, format!("{}&since=s42", base));
}

#[test]
fn typing_is_announced() {
    let typing = adapter(vec![]).send_typing("!r:x");
    assert_eq!(typing.method, HttpMethod::Put);
    assert_eq!(
        typing.url,
        "https://matrix.org/_matrix/client/v3/rooms/!r:x/typing/@bot:matrix.org"
    );
    assert_eq!(
        typing.body,
        Some(object(vec![
            ("typing", Json::Bool(true)),
            ("timeout", Json::Number("5000".to_string())),
        ]))
    );
}

#[test]
fn a_reaction_names_its_event() {
    let a = adapter(vec![]);
    let fixed = a.reaction_request("!r:x", "$e", "👍", "txn");
    assert_eq!(fixed.method, HttpMethod::Put);
    assert_eq!(
        fixed.url,
        "https://matrix.org/_matrix/client/v3/rooms/!r:x/send/m.reaction/txn"
    );
    let body = object(vec![(
        "m.relates_to",
        object(vec![
            ("rel_type", text("m.annotation")),
            ("event_id", text("$e")),
            ("key", text("👍")),
        ]),
    )]);
    assert_eq!(fixed.body, Some(body));
    let drawn = a.send_reaction("!r:x", "$e", "👍");
    assert_eq!(drawn.body, fixed.body);
    assert_ne!(drawn.url, a.send_reaction("!r:x", "$e", "👍").url);
}

#[test]
fn the_token_tells_its_owner() {
    let named = ApiReply::Accepted(object(vec![("user_id", text("@bot:x"))]));
    assert_eq!(authenticated_user(&named), Ok("@bot:x".to_string()));
    let unnamed = ApiReply::Accepted(Json::Null);
    assert_eq!(authenticated_user(&unnamed), Ok("unknown".to_string()));
    assert_eq!(
        authenticated_user(&refused()),
        Err("Matrix authentication failed".to_string())
    );
}

#[test]
fn members_are_counted() {
    let two = ApiReply::Accepted(object(vec![(
        "joined",
        object(vec![("@a:x", Json::Null), ("@b:x", Json::Null)]),
    )]));
    assert_eq!(get_room_member_count(&two), Some(2));
    let odd = ApiReply::Accepted(object(vec![("joined", Json::Array(vec![]))]));
    assert_eq!(get_room_member_count(&odd), None);
    assert_eq!(get_room_member_count(&ApiReply::Accepted(Json::Null)), None);
    assert_eq!(get_room_member_count(&refused()), None);
}

#[test]
fn the_initial_sync_brings_a_token() {
    let named = ApiReply::Accepted(object(vec![("next_batch", text("s1"))]));
    assert_eq!(initial_sync(&named), Some("s1".to_string()));
    let odd = ApiReply::Accepted(object(vec![("next_batch", Json::Bool(true))]));
    assert_eq!(initial_sync(&odd), None);
    assert_eq!(initial_sync(&refused()), None);
}
