//! Requests to the homeserver and its replies.

use crate::json::{Json, JsonView};
use crate::text::opt_text;
use vstd::prelude::*;
use vstd::string::StringExecFns;

verus! {

#[derive(Debug, Clone, Copy, PartialEq, Eq, Structural)]
pub enum HttpMethod {
    Get,
    Post,
    Put,
}

/// A request to be made with the access token as bearer.
#[derive(Debug, PartialEq, Eq)]
pub struct HttpRequest {
    pub method: HttpMethod,
    pub url: String,
    pub body: Option<Json>,
}

/// A request as the specifications see it.
pub struct RequestView {
    pub method: HttpMethod,
    pub url: Seq<char>,
    pub body: Option<JsonView>,
}

impl View for HttpRequest {
    type V = RequestView;

    open spec fn view(&self) -> RequestView {
        RequestView {
            method: self.method,
            url: self.url@,
            body: match self.body {
                Some(j) => Some(j@),
                None => None,
            },
        }
    }
}

/// What the homeserver answered: the document that came with a successful
/// status, or the status and text of any other.
#[derive(Debug, PartialEq, Eq)]
pub enum ApiReply {
    Accepted(Json),
    Refused { status: String, text: String },
}

/// What the homeserver answered, as the specifications see it.
pub enum ReplyView {
    Accepted(JsonView),
    Refused { status: Seq<char>, text: Seq<char> },
}

impl View for ApiReply {
    type V = ReplyView;

    open spec fn view(&self) -> ReplyView {
        match self {
            ApiReply::Accepted(body) => ReplyView::Accepted(body@),
            ApiReply::Refused { status, text } => ReplyView::Refused {
                status: status@,
                text: text@,
            },
        }
    }
}

/// A request of the Client-Server API without a body.
pub open spec fn get_view(url: Seq<char>) -> RequestView {
    RequestView { method: HttpMethod::Get, url, body: None }
}

/// A request of the Client-Server API that puts `body`.
pub open spec fn put_view(url: Seq<char>, body: JsonView) -> RequestView {
    RequestView { method: HttpMethod::Put, url, body: Some(body) }
}

/// A request of the Client-Server API that posts `body`.
pub open spec fn post_view(url: Seq<char>, body: JsonView) -> RequestView {
    RequestView { method: HttpMethod::Post, url, body: Some(body) }
}

/// Where a message for `room` is put under the transaction `txn`.
pub open spec fn message_url(homeserver: Seq<char>, room: Seq<char>, txn: Seq<char>) -> Seq<char> {
    homeserver + "/_matrix/client/v3/rooms/"@ + room + "/send/m.room.message/"@ + txn
}

/// Where a reaction in `room` is put under the transaction `txn`.
pub open spec fn reaction_url(homeserver: Seq<char>, room: Seq<char>, txn: Seq<char>) -> Seq<char> {
    homeserver + "/_matrix/client/v3/rooms/"@ + room + "/send/m.reaction/"@ + txn
}

/// Where `user` tells `room` that a message is being written.
pub open spec fn typing_url(homeserver: Seq<char>, room: Seq<char>, user: Seq<char>) -> Seq<char> {
    homeserver + "/_matrix/client/v3/rooms/"@ + room + "/typing/"@ + user
}

/// Where an invite to `room` is accepted.
pub open spec fn join_url(homeserver: Seq<char>, room: Seq<char>) -> Seq<char> {
    homeserver + "/_matrix/client/v3/rooms/"@ + room + "/join"@
}

/// Where the members of `room` are listed.
pub open spec fn members_url(homeserver: Seq<char>, room: Seq<char>) -> Seq<char> {
    homeserver + "/_matrix/client/v3/rooms/"@ + room + "/joined_members"@
}

/// Where the owner of the access token is named.
pub open spec fn whoami_url(homeserver: Seq<char>) -> Seq<char> {
    homeserver + "/_matrix/client/v3/account/whoami"@
}

/// The four parts one after the other.
pub(crate) fn join_parts(a: &str, b: &str, c: &str, d: &str) -> (r: String)
    ensures
        r@ == a@ + b@ + c@ + d@,
{
    let mut out = a.to_string();
    out.append(b);
    out.append(c);
    out.append(d);
    out
}

/// The event id in the homeserver's answer to a sent event, or the empty text
/// if it names none.
pub open spec fn event_id_in(body: JsonView) -> Seq<char> {
    body.field("event_id"@).text_or(seq![])
}

/// The event id in the homeserver's answer to a sent event.
pub fn event_id_of(body: &Json) -> (r: String)
    ensures
        r@ == event_id_in(body@),
{
    match body.text_at("event_id") {
        Some(id) => id.to_string(),
        None => String::new(),
    }
}

/// The complaint about a refused request of the kind `what`.
pub open spec fn api_error(what: Seq<char>, status: Seq<char>, text: Seq<char>) -> Seq<char> {
    what + status + ": "@ + text
}

/// An outcome of strings, as the specifications see it.
pub open spec fn outcome(r: Result<String, String>) -> Result<Seq<char>, Seq<char>> {
    match r {
        Ok(s) => Ok(s@),
        Err(e) => Err(e@),
    }
}

/// What a request of the kind `what` that sends an event comes to.
pub open spec fn sent_outcome(what: Seq<char>, reply: ReplyView) -> Result<Seq<char>, Seq<char>> {
    match reply {
        ReplyView::Accepted(body) => Ok(event_id_in(body)),
        ReplyView::Refused { status, text } => Err(api_error(what, status, text)),
    }
}

/// What a request that sends an event comes to: the event's id, or the
/// complaint that starts with `what`.
pub fn sent_event(what: &str, reply: &ApiReply) -> (r: Result<String, String>)
    ensures
        match reply@ {
            ReplyView::Accepted(body) => r matches Ok(id) && id@ == event_id_in(body),
            ReplyView::Refused { status, text } => r matches Err(e) && e@ == api_error(
                what@,
                status,
                text,
            ),
        },
        outcome(r) == sent_outcome(what@, reply@),
{
    match reply {
        ApiReply::Accepted(body) => Ok(event_id_of(body)),
        ApiReply::Refused { status, text } => Err(
            join_parts(what, status.as_str(), ": ", text.as_str()),
        ),
    }
}

/// Whom the homeserver takes the owner of the access token for.
pub open spec fn token_owner(reply: ReplyView) -> Result<Seq<char>, Seq<char>> {
    match reply {
        ReplyView::Accepted(body) => Ok(body.field("user_id"@).text_or("unknown"@)),
        ReplyView::Refused { .. } => Err("Matrix authentication failed"@),
    }
}

/// Whom the homeserver takes the owner of the access token for. Fails where
/// the token is refused.
pub fn authenticated_user(reply: &ApiReply) -> (r: Result<String, String>)
    ensures
        match reply@ {
            ReplyView::Accepted(body) => r matches Ok(user) && user@ == body.field(
                "user_id"@,
            ).text_or("unknown"@),
            ReplyView::Refused { .. } => r matches Err(e) && e@ == "Matrix authentication failed"@,
        },
        outcome(r) == token_owner(reply@),
{
    match reply {
        ApiReply::Refused { .. } => Err("Matrix authentication failed".to_string()),
        ApiReply::Accepted(body) => match body.text_at("user_id") {
            Some(user) => Ok(user.to_string()),
            None => Ok("unknown".to_string()),
        },
    }
}

/// The number of joined members that the homeserver lists, if it lists any.
pub open spec fn member_count_in(reply: ReplyView) -> Option<nat> {
    match reply {
        ReplyView::Accepted(body) => match body.field("joined"@).members() {
            Some(members) => Some(members.len()),
            None => None,
        },
        ReplyView::Refused { .. } => None,
    }
}

/// Get the number of joined members in a room from the list of its members.
pub fn get_room_member_count(reply: &ApiReply) -> (r: Option<usize>)
    ensures
        r is Some <==> member_count_in(reply@) is Some,
        r matches Some(n) ==> member_count_in(reply@) == Some(n as nat),
{
    match reply {
        ApiReply::Refused { .. } => None,
        ApiReply::Accepted(body) => match body.get("joined") {
            Some(Json::Object(members)) => {
                assert(body@.field("joined"@)->Object_0.len() == members@.len());
                Some(members.len())
            },
            _ => None,
        },
    }
}

/// The point in the homeserver's stream of events at which a sync ended.
pub open spec fn next_batch_in(body: JsonView) -> Option<Seq<char>> {
    body.field("next_batch"@).text()
}

/// The point from which to sync on, of the answer to the initial sync.
pub open spec fn sync_start(reply: ReplyView) -> Option<Seq<char>> {
    match reply {
        ReplyView::Accepted(body) => next_batch_in(body),
        ReplyView::Refused { .. } => None,
    }
}

/// The point from which to sync on, if the homeserver named it in its answer
/// to the initial sync.
pub fn initial_sync(reply: &ApiReply) -> (r: Option<String>)
    ensures
        match reply@ {
            ReplyView::Accepted(body) => opt_text(r) == next_batch_in(body),
            ReplyView::Refused { .. } => r is None,
        },
        opt_text(r) == sync_start(reply@),
{
    match reply {
        ApiReply::Refused { .. } => None,
        ApiReply::Accepted(body) => match body.text_at("next_batch") {
            Some(token) => Some(token.to_string()),
            None => None,
        },
    }
}

/// The addresses of the Client-Server API all lie on the homeserver, and those
/// of a room name the room.
pub proof fn law_addresses_lie_on_the_homeserver(
    homeserver: Seq<char>,
    room: Seq<char>,
    last: Seq<char>,
)
    ensures
        message_url(homeserver, room, last) == homeserver + "/_matrix/client/v3/rooms/"@ + room
            + "/send/m.room.message/"@ + last,
        reaction_url(homeserver, room, last) == homeserver + "/_matrix/client/v3/rooms/"@ + room
            + "/send/m.reaction/"@ + last,
        typing_url(homeserver, room, last) == homeserver + "/_matrix/client/v3/rooms/"@ + room
            + "/typing/"@ + last,
        join_url(homeserver, room) == homeserver + "/_matrix/client/v3/rooms/"@ + room + "/join"@,
        members_url(homeserver, room) == homeserver + "/_matrix/client/v3/rooms/"@ + room
            + "/joined_members"@,
        whoami_url(homeserver) == homeserver + "/_matrix/client/v3/account/whoami"@,
{
}

/// A request is made as it is named, with its body or without one.
pub proof fn law_requests_carry_their_body(url: Seq<char>, body: JsonView)
    ensures
        get_view(url).method == HttpMethod::Get && get_view(url).url == url && get_view(url).body
            is None,
        put_view(url, body).method == HttpMethod::Put && put_view(url, body).url == url
            && put_view(url, body).body == Some(body),
        post_view(url, body).method == HttpMethod::Post && post_view(url, body).url == url
            && post_view(url, body).body == Some(body),
{
}

/// A sent event comes to its id, or to the empty text where the homeserver
/// names none; a refused one to a complaint that holds the status and the text.
pub proof fn law_sent_events_come_to_their_id(
    what: Seq<char>,
    body: JsonView,
    status: Seq<char>,
    text: Seq<char>,
)
    ensures
        body.field("event_id"@) matches JsonView::Text(id) ==> sent_outcome(
            what,
            ReplyView::Accepted(body),
        ) == Ok::<Seq<char>, Seq<char>>(id),
        body.field("event_id"@) !is Text ==> sent_outcome(what, ReplyView::Accepted(body)) == Ok::<
            Seq<char>,
            Seq<char>,
        >(seq![]),
        sent_outcome(what, ReplyView::Refused { status, text }) == Err::<Seq<char>, Seq<char>>(
            what + status + ": "@ + text,
        ),
{
}

/// The owner of the access token is whom the homeserver names, or unknown where
/// it names nobody; a refused token is a failure.
pub proof fn law_owner_is_whom_the_homeserver_names(
    body: JsonView,
    status: Seq<char>,
    text: Seq<char>,
)
    ensures
        body.field("user_id"@) matches JsonView::Text(user) ==> token_owner(
            ReplyView::Accepted(body),
        ) == Ok::<Seq<char>, Seq<char>>(user),
        body.field("user_id"@) !is Text ==> token_owner(ReplyView::Accepted(body)) == Ok::<
            Seq<char>,
            Seq<char>,
        >("unknown"@),
        token_owner(ReplyView::Refused { status, text }) == Err::<Seq<char>, Seq<char>>(
            "Matrix authentication failed"@,
        ),
{
}

/// The members of a room are all counted where the homeserver lists them, and
/// unknown otherwise.
pub proof fn law_members_are_counted(
    body: JsonView,
    members: Seq<(Seq<char>, JsonView)>,
    status: Seq<char>,
    text: Seq<char>,
)
    ensures
        body.field("joined"@) == JsonView::Object(members) ==> member_count_in(
            ReplyView::Accepted(body),
        ) == Some(members.len()),
        body.field("joined"@) !is Object ==> member_count_in(ReplyView::Accepted(body)) is None,
        member_count_in(ReplyView::Refused { status, text }) is None,
{
}

/// A sync goes on from the point that the homeserver names as the next.
pub proof fn law_sync_starts_at_the_named_point(
    body: JsonView,
    token: Seq<char>,
    status: Seq<char>,
    text: Seq<char>,
)
    ensures
        body.field("next_batch"@) == JsonView::Text(token) ==> next_batch_in(body) == Some(token)
            && sync_start(ReplyView::Accepted(body)) == Some(token),
        body.field("next_batch"@) !is Text ==> next_batch_in(body) is None && sync_start(
            ReplyView::Accepted(body),
        ) is None,
        sync_start(ReplyView::Refused { status, text }) is None,
{
}

/// Requests and replies are seen in full.
pub proof fn law_requests_are_seen_in_full(request: HttpRequest, reply: ApiReply)
    ensures
        request@.method == request.method,
        request@.url == request.url@,
        request@.body is Some <==> request.body is Some,
        request.body matches Some(j) ==> request@.body == Some(j@),
        reply matches ApiReply::Accepted(body) ==> reply@ == ReplyView::Accepted(body@),
        reply matches ApiReply::Refused { status, text } ==> reply@ == (ReplyView::Refused {
            status: status@,
            text: text@,
        }),
{
}

} // verus!
