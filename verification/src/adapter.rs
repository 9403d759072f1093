//! The adapter: whom the channel acts for, where, and in which rooms.

use crate::json::{member, text_member, Json, JsonView};
use crate::outside::{
    is_random_uuid, random_uuid, seal_token, token_str, token_text, AccessToken,
};
use crate::requests::{
    get_view, join_parts, join_url, members_url, post_view, put_view, reaction_url, typing_url,
    whoami_url, HttpMethod, HttpRequest, RequestView,
};
use crate::text::{decimal, decimal_of, is_listed, opt_text, texts};
use vstd::prelude::*;
use vstd::string::StringExecFns;

verus! {

/// How long the homeserver may hold a sync open, in milliseconds.
pub const SYNC_TIMEOUT_MS: u64 = 30000;

/// How long a sign of typing lasts, in milliseconds.
pub const TYPING_TIMEOUT_MS: u64 = 5000;

/// The kinds of channel.
#[derive(Debug, Clone, Copy, PartialEq, Eq, Structural)]
pub enum ChannelType {
    Matrix,
}

/// Matrix channel adapter using the Client-Server API.
pub struct MatrixAdapter {
    /// Matrix homeserver URL (e.g., `"https://matrix.org"`).
    homeserver_url: String,
    /// Bot's user ID (e.g., "@openfang:matrix.org").
    user_id: String,
    /// SECURITY: Access token is zeroized on drop.
    access_token: AccessToken,
    /// Allowed room IDs (empty = all joined rooms).
    allowed_rooms: Vec<String>,
    /// Sync token for resuming /sync.
    since_token: Option<String>,
    /// Whether to auto-accept room invites.
    auto_accept_invites: bool,
}

/// The adapter as the specifications see it.
pub struct AdapterView {
    pub homeserver_url: Seq<char>,
    pub user_id: Seq<char>,
    pub access_token: Seq<char>,
    pub allowed_rooms: Seq<Seq<char>>,
    pub since_token: Option<Seq<char>>,
    pub auto_accept_invites: bool,
}

impl View for MatrixAdapter {
    type V = AdapterView;

    closed spec fn view(&self) -> AdapterView {
        AdapterView {
            homeserver_url: self.homeserver_url@,
            user_id: self.user_id@,
            access_token: token_text(self.access_token),
            allowed_rooms: texts(self.allowed_rooms@),
            since_token: opt_text(self.since_token),
            auto_accept_invites: self.auto_accept_invites,
        }
    }
}

impl AdapterView {
    /// An adapter that has not synced yet.
    pub open spec fn fresh(
        homeserver_url: Seq<char>,
        user_id: Seq<char>,
        access_token: Seq<char>,
        allowed_rooms: Seq<Seq<char>>,
    ) -> AdapterView {
        AdapterView {
            homeserver_url,
            user_id,
            access_token,
            allowed_rooms,
            since_token: None,
            auto_accept_invites: true,
        }
    }

    /// The adapter once it goes on from `token`, if there is one.
    pub open spec fn resumed(self, token: Option<Seq<char>>) -> AdapterView {
        match token {
            Some(_) => AdapterView { since_token: token, ..self },
            None => self,
        }
    }

    /// The adapter takes part in `room`: no list of rooms is given, or the
    /// room is on it.
    pub open spec fn allows(self, room: Seq<char>) -> bool {
        self.allowed_rooms.len() == 0 || self.allowed_rooms.contains(room)
    }

    /// The first sync: it returns at once, and without events.
    pub open spec fn initial_sync_url(self) -> Seq<char> {
        self.homeserver_url
            + "/_matrix/client/v3/sync?timeout=0&filter={\"room\":{\"timeline\":{\"limit\":0}}}"@
    }

    /// A sync that goes on where the last one ended.
    pub open spec fn sync_url(self) -> Seq<char> {
        let url = self.homeserver_url + "/_matrix/client/v3/sync?timeout="@ + decimal(
            SYNC_TIMEOUT_MS as nat,
        ) + "&filter={\"room\":{\"timeline\":{\"limit\":10}}}"@;
        match self.since_token {
            Some(token) => url + "&since="@ + token,
            None => url,
        }
    }
}

/// The body that says that a message is being written.
pub open spec fn typing_body() -> JsonView {
    JsonView::Object(
        seq![
            ("typing"@, JsonView::Bool(true)),
            ("timeout"@, JsonView::Number(decimal(TYPING_TIMEOUT_MS as nat))),
        ],
    )
}

/// The body of the reaction `emoji` to the event `message_id`.
pub open spec fn reaction_body(message_id: Seq<char>, emoji: Seq<char>) -> JsonView {
    JsonView::Object(
        seq![
            (
                "m.relates_to"@,
                JsonView::Object(
                    seq![
                        ("rel_type"@, JsonView::Text("m.annotation"@)),
                        ("event_id"@, JsonView::Text(message_id)),
                        ("key"@, JsonView::Text(emoji)),
                    ],
                ),
            ),
        ],
    )
}

impl AdapterView {
    /// The request that asks whose the access token is.
    pub open spec fn asking_whoami(self) -> RequestView {
        get_view(whoami_url(self.homeserver_url))
    }

    /// The request that accepts an invite to `room`.
    pub open spec fn joining(self, room: Seq<char>) -> RequestView {
        post_view(join_url(self.homeserver_url, room), JsonView::Object(seq![]))
    }

    /// The request that lists the members of `room`.
    pub open spec fn listing_members(self, room: Seq<char>) -> RequestView {
        get_view(members_url(self.homeserver_url, room))
    }

    /// The first sync.
    pub open spec fn syncing_first(self) -> RequestView {
        get_view(self.initial_sync_url())
    }

    /// The next sync.
    pub open spec fn syncing(self) -> RequestView {
        get_view(self.sync_url())
    }

    /// The request that tells `room` that a message is being written.
    pub open spec fn typing(self, room: Seq<char>) -> RequestView {
        put_view(typing_url(self.homeserver_url, room, self.user_id), typing_body())
    }

    /// The request that reacts to the event `message_id`, under the
    /// transaction `txn`.
    pub open spec fn reacting(
        self,
        room: Seq<char>,
        message_id: Seq<char>,
        emoji: Seq<char>,
        txn: Seq<char>,
    ) -> RequestView {
        put_view(reaction_url(self.homeserver_url, room, txn), reaction_body(message_id, emoji))
    }
}

impl MatrixAdapter {
    /// Create a new Matrix adapter.
    pub fn new(
        homeserver_url: String,
        user_id: String,
        access_token: String,
        allowed_rooms: Vec<String>,
    ) -> (r: Self)
        ensures
            r@ == (AdapterView {
                homeserver_url: homeserver_url@,
                user_id: user_id@,
                access_token: access_token@,
                allowed_rooms: texts(allowed_rooms@),
                since_token: None,
                auto_accept_invites: true,
            }),
            r@ == AdapterView::fresh(
                homeserver_url@,
                user_id@,
                access_token@,
                texts(allowed_rooms@),
            ),
    {
        MatrixAdapter {
            homeserver_url,
            user_id,
            access_token: seal_token(access_token),
            allowed_rooms,
            since_token: None,
            auto_accept_invites: true,
        }
    }

    /// The name of the channel.
    pub fn name(&self) -> (r: &str)
        ensures
            r@ == "matrix"@,
    {
        "matrix"
    }

    /// The kind of the channel.
    pub fn channel_type(&self) -> (r: ChannelType)
        ensures
            r == ChannelType::Matrix,
    {
        ChannelType::Matrix
    }

    /// Where the homeserver is.
    pub fn homeserver_url(&self) -> (r: &str)
        ensures
            r@ == self@.homeserver_url,
    {
        self.homeserver_url.as_str()
    }

    /// Whom the channel acts for.
    pub fn user_id(&self) -> (r: &str)
        ensures
            r@ == self@.user_id,
    {
        self.user_id.as_str()
    }

    /// The token that every request bears.
    pub fn access_token(&self) -> (r: &str)
        ensures
            r@ == self@.access_token,
    {
        token_str(&self.access_token)
    }

    /// Whether invites are accepted unasked.
    pub fn auto_accept_invites(&self) -> (r: bool)
        ensures
            r == self@.auto_accept_invites,
    {
        self.auto_accept_invites
    }

    /// Whether the channel takes part in the room.
    pub fn is_allowed_room(&self, room_id: &str) -> (r: bool)
        ensures
            r == self@.allows(room_id@),
    {
        self.allowed_rooms.len() == 0 || is_listed(&self.allowed_rooms, room_id)
    }

    /// Whether the point from which to sync is still to be found, by an
    /// initial sync. Without it the first sync would bring old messages.
    pub fn needs_initial_sync(&self) -> (r: bool)
        ensures
            r == (self@.since_token is None),
    {
        self.since_token.is_none()
    }

    /// Goes on from `token` with the next sync, or from where it stands if
    /// there is none.
    pub fn resume_from(&mut self, token: Option<String>)
        ensures
            final(self)@ == (AdapterView {
                since_token: if token is Some {
                    opt_text(token)
                } else {
                    old(self)@.since_token
                },
                ..old(self)@
            }),
            final(self)@ == old(self)@.resumed(opt_text(token)),
    {
        if token.is_some() {
            self.since_token = token;
        }
    }

    /// The request that asks whose the access token is.
    pub fn whoami_request(&self) -> (r: HttpRequest)
        ensures
            r@ == get_view(whoami_url(self@.homeserver_url)),
            r@ == self@.asking_whoami(),
    {
        let mut url = self.homeserver_url.clone();
        url.append("/_matrix/client/v3/account/whoami");
        HttpRequest { method: HttpMethod::Get, url, body: None }
    }

    /// The request that accepts an invite to the room.
    pub fn join_request(&self, room_id: &str) -> (r: HttpRequest)
        ensures
            r@ == (RequestView {
                method: HttpMethod::Post,
                url: join_url(self@.homeserver_url, room_id@),
                body: Some(JsonView::Object(seq![])),
            }),
            r@ == self@.joining(room_id@),
    {
        let url = join_parts(
            self.homeserver_url.as_str(),
            "/_matrix/client/v3/rooms/",
            room_id,
            "/join",
        );
        let body = Json::object(Vec::new());
        assert(body@->Object_0 =~= seq![]);
        HttpRequest { method: HttpMethod::Post, url, body: Some(body) }
    }

    /// The request that lists the members of the room.
    pub fn members_request(&self, room_id: &str) -> (r: HttpRequest)
        ensures
            r@ == get_view(members_url(self@.homeserver_url, room_id@)),
            r@ == self@.listing_members(room_id@),
    {
        let url = join_parts(
            self.homeserver_url.as_str(),
            "/_matrix/client/v3/rooms/",
            room_id,
            "/joined_members",
        );
        HttpRequest { method: HttpMethod::Get, url, body: None }
    }

    /// The initial /sync with timeout=0 that gets the since token without
    /// processing events.
    pub fn initial_sync_request(&self) -> (r: HttpRequest)
        ensures
            r@ == get_view(self@.initial_sync_url()),
            r@ == self@.syncing_first(),
    {
        let mut url = self.homeserver_url.clone();
        url.append(
            "/_matrix/client/v3/sync?timeout=0&filter={\"room\":{\"timeline\":{\"limit\":0}}}",
        );
        HttpRequest { method: HttpMethod::Get, url, body: None }
    }

    /// The next /sync, which waits for events after the since token.
    pub fn sync_request(&self) -> (r: HttpRequest)
        ensures
            r@ == get_view(self@.sync_url()),
            r@ == self@.syncing(),
    {
        let mut url = self.homeserver_url.clone();
        url.append("/_matrix/client/v3/sync?timeout=");
        url.append(decimal_of(SYNC_TIMEOUT_MS).as_str());
        url.append("&filter={\"room\":{\"timeline\":{\"limit\":10}}}");
        if let Some(token) = &self.since_token {
            url.append("&since=");
            url.append(token.as_str());
        }
        HttpRequest { method: HttpMethod::Get, url, body: None }
    }

    /// The request that tells the room that a message is being written.
    pub fn send_typing(&self, room_id: &str) -> (r: HttpRequest)
        ensures
            r@ == put_view(
                typing_url(self@.homeserver_url, room_id@, self@.user_id),
                typing_body(),
            ),
            r@ == self@.typing(room_id@),
    {
        let mut url = join_parts(
            self.homeserver_url.as_str(),
            "/_matrix/client/v3/rooms/",
            room_id,
            "/typing/",
        );
        url.append(self.user_id.as_str());
        let mut members: Vec<(String, Json)> = Vec::new();
        members.push(("typing".to_string(), Json::Bool(true)));
        members.push(("timeout".to_string(), Json::Number(decimal_of(TYPING_TIMEOUT_MS))));
        let body = Json::object(members);
        assert(body@->Object_0 =~= typing_body()->Object_0);
        HttpRequest { method: HttpMethod::Put, url, body: Some(body) }
    }

    /// The request that reacts to the event `message_id`, under a new
    /// transaction.
    pub fn send_reaction(&self, room_id: &str, message_id: &str, emoji: &str) -> (r: HttpRequest)
        ensures
            exists|txn: Seq<char>|
                is_random_uuid(txn) && r@ == put_view(
                    #[trigger] reaction_url(self@.homeserver_url, room_id@, txn),
                    reaction_body(message_id@, emoji@),
                ),
    {
        let txn_id = random_uuid();
        self.reaction_request(room_id, message_id, emoji, txn_id.as_str())
    }

    /// The request that reacts to the event `message_id`, under the
    /// transaction `txn_id`.
    pub fn reaction_request(
        &self,
        room_id: &str,
        message_id: &str,
        emoji: &str,
        txn_id: &str,
    ) -> (r: HttpRequest)
        ensures
            r@ == put_view(
                reaction_url(self@.homeserver_url, room_id@, txn_id@),
                reaction_body(message_id@, emoji@),
            ),
            r@ == self@.reacting(room_id@, message_id@, emoji@, txn_id@),
    {
        let mut url = join_parts(
            self.homeserver_url.as_str(),
            "/_matrix/client/v3/rooms/",
            room_id,
            "/send/m.reaction/",
        );
        url.append(txn_id);
        let mut relation: Vec<(String, Json)> = Vec::new();
        relation.push(text_member("rel_type", "m.annotation"));
        relation.push(text_member("event_id", message_id));
        relation.push(text_member("key", emoji));
        let relates_to = Json::object(relation);
        assert(relates_to@->Object_0 =~= seq![
            ("rel_type"@, JsonView::Text("m.annotation"@)),
            ("event_id"@, JsonView::Text(message_id@)),
            ("key"@, JsonView::Text(emoji@)),
        ]);
        let mut members: Vec<(String, Json)> = Vec::new();
        members.push(("m.relates_to".to_string(), relates_to));
        let body = Json::object(members);
        assert(body@->Object_0 =~= reaction_body(message_id@, emoji@)->Object_0);
        HttpRequest { method: HttpMethod::Put, url, body: Some(body) }
    }
}

/// The adapter takes part in every room if no list of rooms is given, and else
/// in the listed ones only.
pub proof fn law_rooms_are_those_on_the_list(adapter: AdapterView, room: Seq<char>)
    ensures
        adapter.allowed_rooms.len() == 0 ==> adapter.allows(room),
        adapter.allowed_rooms.len() > 0 ==> (adapter.allows(room) <==> exists|i: int|
            0 <= i < adapter.allowed_rooms.len() && #[trigger] adapter.allowed_rooms[i] == room),
{
}

/// A new adapter is what it was made of; it has not synced yet, and accepts
/// invites.
pub proof fn law_new_adapter_is_what_it_was_made_of(
    homeserver_url: Seq<char>,
    user_id: Seq<char>,
    access_token: Seq<char>,
    allowed_rooms: Seq<Seq<char>>,
)
    ensures
        ({
            let adapter = AdapterView::fresh(homeserver_url, user_id, access_token, allowed_rooms);
            &&& adapter.homeserver_url == homeserver_url
            &&& adapter.user_id == user_id
            &&& adapter.access_token == access_token
            &&& adapter.allowed_rooms == allowed_rooms
            &&& adapter.since_token is None
            &&& adapter.auto_accept_invites
        }),
{
}

/// Going on from a token changes the point of the next sync and nothing else;
/// without a token nothing changes.
pub proof fn law_resuming_moves_only_the_point(adapter: AdapterView, token: Option<Seq<char>>)
    ensures
        token is None ==> adapter.resumed(token) == adapter,
        token is Some ==> adapter.resumed(token).since_token == token,
        adapter.resumed(token).homeserver_url == adapter.homeserver_url,
        adapter.resumed(token).user_id == adapter.user_id,
        adapter.resumed(token).access_token == adapter.access_token,
        adapter.resumed(token).allowed_rooms == adapter.allowed_rooms,
        adapter.resumed(token).auto_accept_invites == adapter.auto_accept_invites,
{
}

/// A sync waits for half a minute and brings ten events of a room at most, from
/// the point where the last one ended; the first one neither waits nor brings
/// events.
pub proof fn law_sync_addresses(adapter: AdapterView)
    ensures
        adapter.initial_sync_url() == adapter.homeserver_url
            + "/_matrix/client/v3/sync?timeout=0&filter={\"room\":{\"timeline\":{\"limit\":0}}}"@,
        adapter.since_token is None ==> adapter.sync_url() == adapter.homeserver_url
            + "/_matrix/client/v3/sync?timeout=30000&filter={\"room\":{\"timeline\":{\"limit\":10}}}"@,
        adapter.since_token matches Some(token) ==> adapter.sync_url() == adapter.homeserver_url
            + "/_matrix/client/v3/sync?timeout=30000&filter={\"room\":{\"timeline\":{\"limit\":10}}}"@
            + "&since="@ + token,
{
    reveal_with_fuel(decimal, 6);
    reveal_strlit("/_matrix/client/v3/sync?timeout=");
    reveal_strlit("&filter={\"room\":{\"timeline\":{\"limit\":10}}}");
    reveal_strlit(
        "/_matrix/client/v3/sync?timeout=30000&filter={\"room\":{\"timeline\":{\"limit\":10}}}",
    );
    assert(decimal(30000) =~= seq!['3', '0', '0', '0', '0']);
    assert("/_matrix/client/v3/sync?timeout="@ + decimal(30000)
        + "&filter={\"room\":{\"timeline\":{\"limit\":10}}}"@
        =~= "/_matrix/client/v3/sync?timeout=30000&filter={\"room\":{\"timeline\":{\"limit\":10}}}"@);
    assert(adapter.homeserver_url + "/_matrix/client/v3/sync?timeout="@ + decimal(30000)
        + "&filter={\"room\":{\"timeline\":{\"limit\":10}}}"@ =~= adapter.homeserver_url + (
    "/_matrix/client/v3/sync?timeout="@ + decimal(30000)
        + "&filter={\"room\":{\"timeline\":{\"limit\":10}}}"@));
}

/// A sign of typing lasts five seconds.
pub proof fn law_typing_lasts_five_seconds()
    ensures
        typing_body().field("typing"@) == JsonView::Bool(true),
        typing_body().field("timeout"@) == JsonView::Number("5000"@),
{
    reveal_with_fuel(member, 3);
    reveal_with_fuel(decimal, 5);
    reveal_strlit("typing");
    reveal_strlit("timeout");
    reveal_strlit("5000");
    assert("typing"@[1] != "timeout"@[1]);
    assert(decimal(5000) =~= "5000"@);
    let members = typing_body()->Object_0;
    assert(members.skip(1)[0] == members[1]);
}

/// A reaction names the event that it annotates and the emoji it does so with.
pub proof fn law_reaction_names_its_event(message_id: Seq<char>, emoji: Seq<char>)
    ensures
        ({
            let relation = reaction_body(message_id, emoji).field("m.relates_to"@);
            &&& relation.field("rel_type"@) == JsonView::Text("m.annotation"@)
            &&& relation.field("event_id"@) == JsonView::Text(message_id)
            &&& relation.field("key"@) == JsonView::Text(emoji)
        }),
{
    reveal_with_fuel(member, 4);
    reveal_strlit("rel_type");
    reveal_strlit("event_id");
    reveal_strlit("key");
    assert("rel_type"@[0] != "event_id"@[0]);
    assert("rel_type"@[0] != "key"@[0]);
    assert("event_id"@[0] != "key"@[0]);
    let members = seq![
        ("rel_type"@, JsonView::Text("m.annotation"@)),
        ("event_id"@, JsonView::Text(message_id)),
        ("key"@, JsonView::Text(emoji)),
    ];
    assert(members.skip(1)[0] == members[1]);
    assert(members.skip(1).skip(1)[0] == members[2]);
}

/// The adapter's requests go to its own homeserver, to the room that is meant,
/// and under its own user id: it asks by `GET`, joins by `POST`, and puts its
/// events by `PUT`, under the transaction it is given.
pub proof fn law_requests_go_to_the_homeserver(
    adapter: AdapterView,
    room: Seq<char>,
    message_id: Seq<char>,
    emoji: Seq<char>,
    txn: Seq<char>,
)
    ensures
        ({
            let server = adapter.homeserver_url;
            let rooms = server + "/_matrix/client/v3/rooms/"@;
            &&& adapter.asking_whoami() == (RequestView {
                method: HttpMethod::Get,
                url: server + "/_matrix/client/v3/account/whoami"@,
                body: None,
            })
            &&& adapter.joining(room) == (RequestView {
                method: HttpMethod::Post,
                url: rooms + room + "/join"@,
                body: Some(JsonView::Object(seq![])),
            })
            &&& adapter.listing_members(room) == (RequestView {
                method: HttpMethod::Get,
                url: rooms + room + "/joined_members"@,
                body: None,
            })
            &&& adapter.syncing_first() == (RequestView {
                method: HttpMethod::Get,
                url: adapter.initial_sync_url(),
                body: None,
            })
            &&& adapter.syncing() == (RequestView {
                method: HttpMethod::Get,
                url: adapter.sync_url(),
                body: None,
            })
            &&& adapter.typing(room) == (RequestView {
                method: HttpMethod::Put,
                url: rooms + room + "/typing/"@ + adapter.user_id,
                body: Some(typing_body()),
            })
            &&& adapter.reacting(room, message_id, emoji, txn) == (RequestView {
                method: HttpMethod::Put,
                url: rooms + room + "/send/m.reaction/"@ + txn,
                body: Some(reaction_body(message_id, emoji)),
            })
        }),
{
}

} // verus!
