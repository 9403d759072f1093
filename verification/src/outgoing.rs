//! Messages on their way out: how a text is sent, in which pieces, and how a
//! message that was sent is replaced.

use crate::adapter::{AdapterView, MatrixAdapter};
use crate::html::{contains_html_tags, has_html_mark, lowercase, strip_html_tags, stripped};
use crate::json::{copy_json, member, text_member, Json, JsonView};
use crate::message::{ChannelContent, ContentView};
use crate::outside::{is_random_uuid, random_uuid};
use crate::requests::{
    api_error, event_id_in, join_parts, message_url, outcome, put_view, sent_event, sent_outcome,
    ApiReply, HttpMethod, HttpRequest, ReplyView, RequestView,
};
use crate::text::{opt_str, texts};
use vstd::prelude::*;
use vstd::string::StringExecFns;
use vstd::utf8::encode_utf8;

verus! {

/// The length of a message up to which it goes out in one piece.
pub const MAX_MESSAGE_LEN: usize = 4096;

/// How a text goes out: as it is, or as HTML with a plain fallback.
#[derive(Debug, PartialEq, Eq)]
pub enum Outgoing {
    Text(String),
    Html { plain: String, html: String },
}

/// How a text goes out, as the specifications see it.
pub enum OutgoingView {
    Text(Seq<char>),
    Html { plain: Seq<char>, html: Seq<char> },
}

impl View for Outgoing {
    type V = OutgoingView;

    open spec fn view(&self) -> OutgoingView {
        match self {
            Outgoing::Text(s) => OutgoingView::Text(s@),
            Outgoing::Html { plain, html } => OutgoingView::Html { plain: plain@, html: html@ },
        }
    }
}

/// How `text` goes out, given whether it holds HTML.
pub open spec fn text_plan(text: Seq<char>, has_html: bool) -> OutgoingView {
    if has_html {
        OutgoingView::Html { plain: stripped(text), html: text }
    } else {
        OutgoingView::Text(text)
    }
}

/// How `content` goes out: only text can be sent, and in place of anything
/// else a notice is.
pub open spec fn content_plan(content: ContentView, has_html: bool) -> OutgoingView {
    match content {
        ContentView::Text(text) => text_plan(text, has_html),
        _ => OutgoingView::Text("(Unsupported content type)"@),
    }
}

/// How `content` goes out, by whether a mark of HTML stands in it in lower
/// case.
pub open spec fn planned(content: ContentView) -> OutgoingView {
    content_plan(
        content,
        match content {
            ContentView::Text(text) => has_html_mark(lowercase(text)),
            _ => false,
        },
    )
}

/// How `text` is to go out, given whether it holds HTML.
pub fn plan_text(text: &str, has_html: bool) -> (r: Outgoing)
    ensures
        r@ == text_plan(text@, has_html),
{
    if has_html {
        Outgoing::Html { plain: strip_html_tags(text), html: text.to_string() }
    } else {
        Outgoing::Text(text.to_string())
    }
}

/// How `content` is to go out.
pub fn plan_content(content: &ChannelContent) -> (r: Outgoing)
    ensures
        match content@ {
            ContentView::Text(text) => r@ == content_plan(
                content@,
                has_html_mark(lowercase(text)),
            ),
            _ => r@ == content_plan(content@, false),
        },
        r@ == planned(content@),
{
    match content {
        ChannelContent::Text(text) => {
            let has_html = contains_html_tags(text.as_str());
            plan_text(text.as_str(), has_html)
        },
        _ => Outgoing::Text("(Unsupported content type)".to_string()),
    }
}

/// The plain text that goes with `html`: the one given, or the HTML's own if
/// that is empty.
pub open spec fn fallback(plain_text: Seq<char>, html: Seq<char>) -> Seq<char> {
    if plain_text.len() == 0 {
        stripped(html)
    } else {
        plain_text
    }
}

/// The plain text that goes with `html`.
pub fn html_fallback(plain_text: &str, html: &str) -> (r: String)
    ensures
        r@ == fallback(plain_text@, html@),
{
    if plain_text.is_empty() {
        strip_html_tags(html)
    } else {
        plain_text.to_string()
    }
}

impl OutgoingView {
    /// The text whose length decides in how many pieces the message goes out.
    pub open spec fn measured(self) -> Seq<char> {
        match self {
            OutgoingView::Text(text) => text,
            OutgoingView::Html { plain, html } => fallback(plain, html),
        }
    }

    /// The bodies that are sent, given the pieces of the measured text.
    pub open spec fn bodies(self, chunks: Seq<Seq<char>>) -> Seq<JsonView> {
        match self {
            OutgoingView::Text(_) => text_bodies(chunks),
            OutgoingView::Html { plain, html } => html_bodies(plain, html, chunks),
        }
    }
}

impl Outgoing {
    /// The text that is to be cut into pieces of at most `MAX_MESSAGE_LEN`
    /// before the message can go out.
    pub fn measured_text(&self) -> (r: String)
        ensures
            r@ == self@.measured(),
    {
        match self {
            Outgoing::Text(text) => text.clone(),
            Outgoing::Html { plain, html } => html_fallback(plain.as_str(), html.as_str()),
        }
    }
}

/// The body of a message in plain text.
pub open spec fn text_body(text: Seq<char>) -> JsonView {
    JsonView::Object(
        seq![("msgtype"@, JsonView::Text("m.text"@)), ("body"@, JsonView::Text(text))],
    )
}

/// The body of a message in HTML. The `plain` text is shown on clients that
/// do not support HTML.
pub open spec fn html_body(plain: Seq<char>, html: Seq<char>) -> JsonView {
    JsonView::Object(
        seq![
            ("msgtype"@, JsonView::Text("m.text"@)),
            ("body"@, JsonView::Text(plain)),
            ("format"@, JsonView::Text("org.matrix.custom.html"@)),
            ("formatted_body"@, JsonView::Text(html)),
        ],
    )
}

/// One plain text body for each piece.
pub open spec fn text_bodies(chunks: Seq<Seq<char>>) -> Seq<JsonView> {
    chunks.map_values(|chunk: Seq<char>| text_body(chunk))
}

/// The bodies of a message in HTML. Where the plain text is in one piece and
/// the HTML has at most twice the length of a piece, in bytes, there is one,
/// with both; else the pieces go out as plain text, since splitting HTML would
/// break it.
pub open spec fn html_bodies(
    plain_text: Seq<char>,
    html: Seq<char>,
    chunks: Seq<Seq<char>>,
) -> Seq<JsonView> {
    if chunks.len() == 1 && encode_utf8(html).len() <= MAX_MESSAGE_LEN * 2 {
        seq![html_body(fallback(plain_text, html), html)]
    } else {
        text_bodies(chunks)
    }
}

fn text_message(text: &str) -> (r: Json)
    ensures
        r@ == text_body(text@),
{
    let mut members: Vec<(String, Json)> = Vec::new();
    members.push(text_member("msgtype", "m.text"));
    members.push(text_member("body", text));
    let body = Json::object(members);
    assert(body@->Object_0 =~= text_body(text@)->Object_0);
    body
}

fn html_message(plain: &str, html: &str) -> (r: Json)
    ensures
        r@ == html_body(plain@, html@),
{
    let mut members: Vec<(String, Json)> = Vec::new();
    members.push(text_member("msgtype", "m.text"));
    members.push(text_member("body", plain));
    members.push(text_member("format", "org.matrix.custom.html"));
    members.push(text_member("formatted_body", html));
    let body = Json::object(members);
    assert(body@->Object_0 =~= html_body(plain@, html@)->Object_0);
    body
}

/// The documents of a list.
pub open spec fn documents(list: Seq<Json>) -> Seq<JsonView> {
    list.map_values(|j: Json| j@)
}

fn text_messages(chunks: &Vec<String>) -> (r: Vec<Json>)
    ensures
        documents(r@) == text_bodies(texts(chunks@)),
{
    let mut bodies: Vec<Json> = Vec::new();
    for i in 0..chunks.len()
        invariant
            bodies@.len() == i,
            forall|j: int| 0 <= j < i ==> (#[trigger] bodies@[j])@ == text_body(chunks@[j]@),
    {
        bodies.push(text_message(chunks[i].as_str()));
    }
    assert(documents(bodies@) =~= text_bodies(texts(chunks@)));
    bodies
}

/// A message on its way out, one request after the other.
#[derive(Debug, PartialEq, Eq)]
pub struct SendJob {
    homeserver_url: String,
    room_id: String,
    bodies: Vec<Json>,
    sent: usize,
    last_event_id: String,
}

/// A message on its way out, as the specifications see it.
pub struct JobView {
    pub homeserver_url: Seq<char>,
    pub room_id: Seq<char>,
    pub bodies: Seq<JsonView>,
    pub sent: int,
    pub last_event_id: Seq<char>,
}

impl View for SendJob {
    type V = JobView;

    closed spec fn view(&self) -> JobView {
        JobView {
            homeserver_url: self.homeserver_url@,
            room_id: self.room_id@,
            bodies: documents(self.bodies@),
            sent: self.sent as int,
            last_event_id: self.last_event_id@,
        }
    }
}

impl SendJob {
    #[verifier::type_invariant]
    spec fn inv(self) -> bool {
        self.sent <= self.bodies@.len()
    }
}

impl JobView {
    /// As many requests at most have been made as there are bodies.
    pub open spec fn wf(self) -> bool {
        0 <= self.sent <= self.bodies.len()
    }

    /// Nothing is left to send.
    pub open spec fn done(self) -> bool {
        self.sent == self.bodies.len()
    }

    /// The next request, under the transaction `txn`.
    pub open spec fn put(self, txn: Seq<char>) -> RequestView {
        put_view(message_url(self.homeserver_url, self.room_id, txn), self.bodies[self.sent])
    }

    /// The job after the homeserver accepted the next request and answered
    /// with `body`.
    pub open spec fn accepted(self, body: JsonView) -> JobView {
        JobView { sent: self.sent + 1, last_event_id: event_id_in(body), ..self }
    }

    /// The job after a reply to the next request, and the complaint if that was
    /// refused.
    pub open spec fn replied(self, reply: ReplyView) -> (JobView, Result<(), Seq<char>>) {
        match reply {
            ReplyView::Accepted(body) => (self.accepted(body), Ok(())),
            ReplyView::Refused { status, text } => (
                self,
                Err(api_error("Matrix API error "@, status, text)),
            ),
        }
    }

    /// The job after as many requests were accepted as there are `replies`.
    pub open spec fn accepted_all(self, replies: Seq<JsonView>) -> JobView
        decreases replies.len(),
    {
        if replies.len() == 0 {
            self
        } else {
            self.accepted_all(replies.drop_last()).accepted(replies.last())
        }
    }
}

/// The job that sends `bodies` to `room`, before its first request.
pub open spec fn new_job(
    homeserver_url: Seq<char>,
    room_id: Seq<char>,
    bodies: Seq<JsonView>,
) -> JobView {
    JobView { homeserver_url, room_id, bodies, sent: 0, last_event_id: seq![] }
}

/// The job that sends `message` to `room`, given the pieces of its measured
/// text.
pub open spec fn sending(
    adapter: AdapterView,
    room_id: Seq<char>,
    message: OutgoingView,
    chunks: Seq<Seq<char>>,
) -> JobView {
    new_job(adapter.homeserver_url, room_id, message.bodies(chunks))
}

impl SendJob {
    /// The next request, under a new transaction, or nothing if all have been
    /// made.
    pub fn next_request(&self) -> (r: Option<HttpRequest>)
        ensures
            self@.wf(),
            r is None <==> self@.done(),
            r matches Some(request) ==> exists|txn: Seq<char>|
                is_random_uuid(txn) && request@ == put_view(
                    #[trigger] message_url(self@.homeserver_url, self@.room_id, txn),
                    self@.bodies[self@.sent],
                ),
    {
        let txn_id = random_uuid();
        self.request(txn_id.as_str())
    }

    /// The next request, under the transaction `txn_id`, or nothing if all
    /// have been made.
    pub fn request(&self, txn_id: &str) -> (r: Option<HttpRequest>)
        ensures
            self@.wf(),
            r is None <==> self@.done(),
            r matches Some(request) ==> request@ == put_view(
                message_url(self@.homeserver_url, self@.room_id, txn_id@),
                self@.bodies[self@.sent],
            ),
            r matches Some(request) ==> request@ == self@.put(txn_id@),
    {
        proof {
            use_type_invariant(self);
        }
        if self.sent == self.bodies.len() {
            return None;
        }
        let url = message_address(self.homeserver_url.as_str(), self.room_id.as_str(), txn_id);
        let body = copy_json(&self.bodies[self.sent]);
        Some(HttpRequest { method: HttpMethod::Put, url, body: Some(body) })
    }

    /// Takes in the answer to the request that was made last. Where it was
    /// refused, the message goes no further.
    pub fn on_reply(&mut self, reply: &ApiReply) -> (r: Result<(), String>)
        requires
            !old(self)@.done(),
        ensures
            match reply@ {
                ReplyView::Accepted(body) => r is Ok && final(self)@ == old(self)@.accepted(body),
                ReplyView::Refused { status, text } => {
                    &&& r matches Err(e)
                    &&& e@ == api_error("Matrix API error "@, status, text)
                    &&& final(self)@ == old(self)@
                },
            },
            final(self)@ == old(self)@.replied(reply@).0,
            r is Ok <==> old(self)@.replied(reply@).1 is Ok,
            r matches Err(e) ==> old(self)@.replied(reply@).1 == Err::<(), Seq<char>>(e@),
    {
        proof {
            use_type_invariant(&*self);
        }
        assert(self.sent < self.bodies.len());
        match sent_event("Matrix API error ", reply) {
            Ok(event_id) => {
                self.last_event_id = event_id;
                self.sent = self.sent + 1;
                Ok(())
            },
            Err(e) => Err(e),
        }
    }

    /// The id of the last event that was sent, or the empty text if none was.
    pub fn event_id(&self) -> (r: &str)
        ensures
            r@ == self@.last_event_id,
    {
        self.last_event_id.as_str()
    }
}

/// Where a message for the room is put.
fn message_address(homeserver_url: &str, room_id: &str, txn_id: &str) -> (r: String)
    ensures
        r@ == message_url(homeserver_url@, room_id@, txn_id@),
{
    let mut url = join_parts(
        homeserver_url,
        "/_matrix/client/v3/rooms/",
        room_id,
        "/send/m.room.message/",
    );
    url.append(txn_id);
    url
}

/// The relation by which an event replaces the event `event_id`.
pub open spec fn replace_relation(event_id: Seq<char>) -> JsonView {
    JsonView::Object(
        seq![("rel_type"@, JsonView::Text("m.replace"@)), ("event_id"@, JsonView::Text(event_id))],
    )
}

/// The body that replaces the content of the event `event_id`. Clients that
/// know no replacements show a text that is marked with a star.
pub open spec fn edit_body(
    event_id: Seq<char>,
    new_content: Seq<char>,
    new_html: Option<Seq<char>>,
) -> JsonView {
    match new_html {
        Some(html) => JsonView::Object(
            seq![
                ("msgtype"@, JsonView::Text("m.text"@)),
                ("body"@, JsonView::Text("* "@ + stripped(new_content))),
                ("format"@, JsonView::Text("org.matrix.custom.html"@)),
                ("formatted_body"@, JsonView::Text(html)),
                ("m.new_content"@, html_body(stripped(new_content), html)),
                ("m.relates_to"@, replace_relation(event_id)),
            ],
        ),
        None => JsonView::Object(
            seq![
                ("msgtype"@, JsonView::Text("m.text"@)),
                ("body"@, JsonView::Text("* "@ + new_content)),
                ("m.new_content"@, text_body(new_content)),
                ("m.relates_to"@, replace_relation(event_id)),
            ],
        ),
    }
}

/// The request that replaces the content of the event `event_id`, under the
/// transaction `txn`.
pub open spec fn editing(
    adapter: AdapterView,
    room_id: Seq<char>,
    event_id: Seq<char>,
    new_content: Seq<char>,
    new_html: Option<Seq<char>>,
    txn: Seq<char>,
) -> RequestView {
    put_view(
        message_url(adapter.homeserver_url, room_id, txn),
        edit_body(event_id, new_content, new_html),
    )
}

fn edit_message(event_id: &str, new_content: &str, new_html: Option<&str>) -> (r: Json)
    ensures
        r@ == edit_body(event_id@, new_content@, opt_str(new_html)),
{
    let mut relation: Vec<(String, Json)> = Vec::new();
    relation.push(text_member("rel_type", "m.replace"));
    relation.push(text_member("event_id", event_id));
    let relates_to = Json::object(relation);
    assert(relates_to@->Object_0 =~= replace_relation(event_id@)->Object_0);
    let mut members: Vec<(String, Json)> = Vec::new();
    members.push(text_member("msgtype", "m.text"));
    let mut marked = "* ".to_string();
    match new_html {
        Some(html) => {
            let plain = strip_html_tags(new_content);
            marked.append(plain.as_str());
            members.push(text_member("body", marked.as_str()));
            members.push(text_member("format", "org.matrix.custom.html"));
            members.push(text_member("formatted_body", html));
            members.push(("m.new_content".to_string(), html_message(plain.as_str(), html)));
        },
        None => {
            marked.append(new_content);
            members.push(text_member("body", marked.as_str()));
            members.push(("m.new_content".to_string(), text_message(new_content)));
        },
    }
    members.push(("m.relates_to".to_string(), relates_to));
    let body = Json::object(members);
    assert(body@->Object_0 =~= edit_body(
        event_id@,
        new_content@,
        opt_str(new_html),
    )->Object_0);
    body
}

/// What an edit comes to.
pub open spec fn edit_outcome(reply: ReplyView) -> Result<Seq<char>, Seq<char>> {
    sent_outcome("Matrix edit API error "@, reply)
}

/// What an edit comes to: the id of the new event, or the complaint.
pub fn edited_event(reply: &ApiReply) -> (r: Result<String, String>)
    ensures
        match reply@ {
            ReplyView::Accepted(body) => r matches Ok(id) && id@ == event_id_in(body),
            ReplyView::Refused { status, text } => r matches Err(e) && e@ == api_error(
                "Matrix edit API error "@,
                status,
                text,
            ),
        },
        outcome(r) == edit_outcome(reply@),
{
    sent_event("Matrix edit API error ", reply)
}

impl MatrixAdapter {
    /// Send a text message to a Matrix room, whose text was cut into `chunks`.
    pub fn api_send_message(&self, room_id: &str, chunks: &Vec<String>) -> (r: SendJob)
        ensures
            r@ == new_job(self@.homeserver_url, room_id@, text_bodies(texts(chunks@))),
            forall|text: Seq<char>|
                r@ == #[trigger] sending(
                    self@,
                    room_id@,
                    OutgoingView::Text(text),
                    texts(chunks@),
                ),
    {
        start_job(self.homeserver_url(), room_id, text_messages(chunks))
    }

    /// Send an HTML-formatted message to a Matrix room.
    ///
    /// Matrix supports rich text via `org.matrix.custom.html` format.
    /// The `plain_text` fallback is shown on clients that don't support HTML;
    /// `chunks` are the pieces into which the fallback was cut.
    pub fn api_send_html_message(
        &self,
        room_id: &str,
        plain_text: &str,
        html: &str,
        chunks: &Vec<String>,
    ) -> (r: SendJob)
        ensures
            r@ == new_job(
                self@.homeserver_url,
                room_id@,
                html_bodies(plain_text@, html@, texts(chunks@)),
            ),
            r@ == sending(
                self@,
                room_id@,
                OutgoingView::Html { plain: plain_text@, html: html@ },
                texts(chunks@),
            ),
    {
        if chunks.len() == 1 && html.as_bytes().len() <= MAX_MESSAGE_LEN * 2 {
            let plain = html_fallback(plain_text, html);
            let mut bodies: Vec<Json> = Vec::new();
            bodies.push(html_message(plain.as_str(), html));
            assert(documents(bodies@) =~= seq![html_body(plain@, html@)]);
            start_job(self.homeserver_url(), room_id, bodies)
        } else {
            start_job(self.homeserver_url(), room_id, text_messages(chunks))
        }
    }

    /// Send a message as planned; `chunks` are the pieces into which its
    /// measured text was cut.
    pub fn send(&self, room_id: &str, message: &Outgoing, chunks: &Vec<String>) -> (r: SendJob)
        ensures
            r@ == new_job(self@.homeserver_url, room_id@, message@.bodies(texts(chunks@))),
            r@ == sending(self@, room_id@, message@, texts(chunks@)),
    {
        match message {
            Outgoing::Text(_) => self.api_send_message(room_id, chunks),
            Outgoing::Html { plain, html } => self.api_send_html_message(
                room_id,
                plain.as_str(),
                html.as_str(),
                chunks,
            ),
        }
    }

    /// Edit an existing message using Matrix's m.replace relation, under a new
    /// transaction.
    pub fn api_edit_message(
        &self,
        room_id: &str,
        original_event_id: &str,
        new_content: &str,
        new_html: Option<&str>,
    ) -> (r: HttpRequest)
        ensures
            exists|txn: Seq<char>|
                is_random_uuid(txn) && r@ == put_view(
                    #[trigger] message_url(self@.homeserver_url, room_id@, txn),
                    edit_body(original_event_id@, new_content@, opt_str(new_html)),
                ),
    {
        let txn_id = random_uuid();
        self.edit_request(room_id, original_event_id, new_content, new_html, txn_id.as_str())
    }

    /// Edit an existing message using Matrix's m.replace relation, under the
    /// transaction `txn_id`.
    pub fn edit_request(
        &self,
        room_id: &str,
        original_event_id: &str,
        new_content: &str,
        new_html: Option<&str>,
        txn_id: &str,
    ) -> (r: HttpRequest)
        ensures
            r@ == put_view(
                message_url(self@.homeserver_url, room_id@, txn_id@),
                edit_body(original_event_id@, new_content@, opt_str(new_html)),
            ),
            r@ == editing(
                self@,
                room_id@,
                original_event_id@,
                new_content@,
                opt_str(new_html),
                txn_id@,
            ),
    {
        let url = message_address(self.homeserver_url(), room_id, txn_id);
        let body = edit_message(original_event_id, new_content, new_html);
        HttpRequest { method: HttpMethod::Put, url, body: Some(body) }
    }
}

fn start_job(homeserver_url: &str, room_id: &str, bodies: Vec<Json>) -> (r: SendJob)
    ensures
        r@ == new_job(homeserver_url@, room_id@, documents(bodies@)),
{
    SendJob {
        homeserver_url: homeserver_url.to_string(),
        room_id: room_id.to_string(),
        bodies,
        sent: 0,
        last_event_id: String::new(),
    }
}

/// A message that is accepted piece by piece ends with the id of its last
/// piece, and nothing of it is left to send.
pub proof fn law_accepted_message_ends_with_last_id(job: JobView, replies: Seq<JsonView>)
    requires
        job.wf(),
        job.sent + replies.len() == job.bodies.len(),
    ensures
        job.accepted_all(replies).done(),
        job.accepted_all(replies).last_event_id == if replies.len() == 0 {
            job.last_event_id
        } else {
            event_id_in(replies.last())
        },
{
    lemma_accepted_all(job, replies);
}

proof fn lemma_accepted_all(job: JobView, replies: Seq<JsonView>)
    ensures
        job.accepted_all(replies).sent == job.sent + replies.len(),
        job.accepted_all(replies).bodies == job.bodies,
        job.accepted_all(replies).room_id == job.room_id,
        job.accepted_all(replies).homeserver_url == job.homeserver_url,
    decreases replies.len(),
{
    if replies.len() > 0 {
        lemma_accepted_all(job, replies.drop_last());
    }
}

/// The pieces go out in order: after as many accepted requests as there are
/// `replies`, the next body is the one of the piece that follows them.
pub proof fn law_pieces_go_out_in_order(
    homeserver_url: Seq<char>,
    room_id: Seq<char>,
    chunks: Seq<Seq<char>>,
    replies: Seq<JsonView>,
)
    requires
        replies.len() < chunks.len(),
    ensures
        ({
            let job = new_job(homeserver_url, room_id, text_bodies(chunks)).accepted_all(replies);
            job.wf() && !job.done() && job.bodies[job.sent] == text_body(
                chunks[replies.len() as int],
            )
        }),
{
    lemma_accepted_all(new_job(homeserver_url, room_id, text_bodies(chunks)), replies);
}

/// HTML that is sent in one piece keeps its plain text beside it, and one that
/// is cut goes out without its HTML.
pub proof fn law_html_is_never_cut(
    plain_text: Seq<char>,
    html: Seq<char>,
    chunks: Seq<Seq<char>>,
)
    ensures
        html_bodies(plain_text, html, chunks) == seq![html_body(fallback(plain_text, html), html)]
            || html_bodies(plain_text, html, chunks) == text_bodies(chunks),
        chunks.len() != 1 ==> html_bodies(plain_text, html, chunks) == text_bodies(chunks),
        html_bodies(plain_text, html, chunks).len() == chunks.len(),
{
}

/// What an edit shows in place of the event is the new content alone, and it
/// names the event that it replaces.
pub proof fn law_edit_names_its_event(
    event_id: Seq<char>,
    new_content: Seq<char>,
    new_html: Option<Seq<char>>,
)
    ensures
        edit_body(event_id, new_content, new_html).field("m.relates_to"@) == replace_relation(
            event_id,
        ),
        replace_relation(event_id).field("event_id"@) == JsonView::Text(event_id),
        edit_body(event_id, new_content, new_html).field("m.new_content"@) == match new_html {
            Some(html) => html_body(stripped(new_content), html),
            None => text_body(new_content),
        },
{
    reveal_with_fuel(member, 7);
    reveal_strlit("msgtype");
    reveal_strlit("body");
    reveal_strlit("format");
    reveal_strlit("formatted_body");
    reveal_strlit("m.new_content");
    reveal_strlit("m.relates_to");
    reveal_strlit("rel_type");
    reveal_strlit("event_id");
    assert("m.new_content"@[0] != "body"@[0]);
    assert("m.new_content"@[1] != "msgtype"@[1]);
    assert("m.relates_to"@[1] != "msgtype"@[1]);
    assert("m.relates_to"@[2] != "m.new_content"@[2]);
    assert("rel_type"@[0] != "event_id"@[0]);
}

/// `body` is a message in plain text that says `text`, and nothing more.
pub open spec fn says_plainly(body: JsonView, text: Seq<char>) -> bool {
    &&& body.field("msgtype"@) == JsonView::Text("m.text"@)
    &&& body.field("body"@) == JsonView::Text(text)
    &&& body.field("format"@) == JsonView::Null
    &&& body.field("formatted_body"@) == JsonView::Null
    &&& body.members() matches Some(members) && members.len() == 2
}

/// `body` is a message in HTML that says `html`, with `plain` for clients that
/// do not support HTML.
pub open spec fn says_in_html(body: JsonView, plain: Seq<char>, html: Seq<char>) -> bool {
    &&& body.field("msgtype"@) == JsonView::Text("m.text"@)
    &&& body.field("body"@) == JsonView::Text(plain)
    &&& body.field("format"@) == JsonView::Text("org.matrix.custom.html"@)
    &&& body.field("formatted_body"@) == JsonView::Text(html)
    &&& body.members() matches Some(members) && members.len() == 4
}

proof fn lemma_names_differ()
    ensures
        "msgtype"@ != "body"@,
        "msgtype"@ != "format"@,
        "msgtype"@ != "formatted_body"@,
        "body"@ != "format"@,
        "body"@ != "formatted_body"@,
        "format"@ != "formatted_body"@,
        "m.new_content"@ != "msgtype"@,
        "m.new_content"@ != "body"@,
        "m.new_content"@ != "format"@,
        "m.new_content"@ != "formatted_body"@,
        "m.new_content"@ != "m.relates_to"@,
        "m.relates_to"@ != "msgtype"@,
        "m.relates_to"@ != "body"@,
        "m.relates_to"@ != "format"@,
        "m.relates_to"@ != "formatted_body"@,
        "rel_type"@ != "event_id"@,
{
    reveal_strlit("msgtype");
    reveal_strlit("body");
    reveal_strlit("format");
    reveal_strlit("formatted_body");
    reveal_strlit("m.new_content");
    reveal_strlit("m.relates_to");
    reveal_strlit("rel_type");
    reveal_strlit("event_id");
    assert("m.new_content"@[1] == '.');
    assert("m.relates_to"@[1] == '.');
    assert("m.new_content"@[2] == 'n');
    assert("m.relates_to"@[2] == 'r');
    assert("msgtype"@[1] == 's');
    assert("body"@[1] == 'o');
    assert("format"@[0] == 'f');
    assert("body"@[0] == 'b');
    assert("msgtype"@[0] == 'm');
    assert("formatted_body"@[0] == 'f');
    assert("m.new_content"@[0] == 'm');
    assert("m.relates_to"@[0] == 'm');
    assert("format"@.len() != "formatted_body"@.len());
    assert("rel_type"@[0] != "event_id"@[0]);
}

proof fn lemma_bodies_say(plain: Seq<char>, html: Seq<char>)
    ensures
        says_plainly(text_body(plain), plain),
        says_in_html(html_body(plain, html), plain, html),
{
    lemma_names_differ();
    reveal_with_fuel(member, 5);
    let t = text_body(plain)->Object_0;
    assert(t.skip(1)[0] == t[1]);
    let h = html_body(plain, html)->Object_0;
    assert(h.skip(1)[0] == h[1]);
    assert(h.skip(1).skip(1)[0] == h[2]);
    assert(h.skip(1).skip(1).skip(1)[0] == h[3]);
}

/// A plain text message goes out whole: there is one body for each piece of
/// it, in order, and each says its piece in plain text.
pub proof fn law_text_goes_out_whole(text: Seq<char>, chunks: Seq<Seq<char>>)
    ensures
        OutgoingView::Text(text).bodies(chunks).len() == chunks.len(),
        forall|i: int|
            0 <= i < chunks.len() ==> says_plainly(
                #[trigger] OutgoingView::Text(text).bodies(chunks)[i],
                chunks[i],
            ),
{
    assert forall|i: int| 0 <= i < chunks.len() implies says_plainly(
        #[trigger] OutgoingView::Text(text).bodies(chunks)[i],
        chunks[i],
    ) by {
        lemma_bodies_say(chunks[i], chunks[i]);
    }
}

/// An HTML message that fits goes out as one body with the HTML as it is and
/// its plain text, which is made from the HTML where none is given. One that
/// is in several pieces, or over eight kibibytes long, goes out whole in plain
/// text.
pub proof fn law_html_goes_out_whole(
    plain: Seq<char>,
    html: Seq<char>,
    chunks: Seq<Seq<char>>,
)
    ensures
        ({
            let message = OutgoingView::Html { plain, html };
            let shown = if plain.len() > 0 {
                plain
            } else {
                stripped(html)
            };
            if chunks.len() == 1 && encode_utf8(html).len() <= 8192 {
                &&& message.bodies(chunks).len() == 1
                &&& says_in_html(message.bodies(chunks)[0], shown, html)
            } else {
                &&& message.bodies(chunks).len() == chunks.len()
                &&& forall|i: int|
                    0 <= i < chunks.len() ==> says_plainly(
                        #[trigger] message.bodies(chunks)[i],
                        chunks[i],
                    )
            }
        }),
{
    let message = OutgoingView::Html { plain, html };
    let shown = if plain.len() > 0 {
        plain
    } else {
        stripped(html)
    };
    lemma_bodies_say(shown, html);
    assert forall|i: int| 0 <= i < chunks.len() implies says_plainly(
        #[trigger] text_bodies(chunks)[i],
        chunks[i],
    ) by {
        lemma_bodies_say(chunks[i], chunks[i]);
    }
}

/// What is cut into pieces is the text itself, or the plain text that goes
/// with the HTML.
pub proof fn law_what_is_cut_is_what_is_shown(
    text: Seq<char>,
    plain: Seq<char>,
    html: Seq<char>,
)
    ensures
        OutgoingView::Text(text).measured() == text,
        plain.len() > 0 ==> (OutgoingView::Html { plain, html }).measured() == plain,
        plain.len() == 0 ==> (OutgoingView::Html { plain, html }).measured() == stripped(html),
        plain.len() > 0 ==> fallback(plain, html) == plain,
        plain.len() == 0 ==> fallback(plain, html) == stripped(html),
{
}

/// The job that sends a message goes to the room on the adapter's homeserver,
/// and its next request, after as many were accepted as there are `replies`,
/// says the piece of a plain text that follows them, under the transaction it
/// is made with.
pub proof fn law_sent_text_goes_to_its_room_in_order(
    adapter: AdapterView,
    room_id: Seq<char>,
    text: Seq<char>,
    chunks: Seq<Seq<char>>,
    replies: Seq<JsonView>,
    txn: Seq<char>,
)
    requires
        replies.len() <= chunks.len(),
    ensures
        ({
            let job = sending(adapter, room_id, OutgoingView::Text(text), chunks);
            let later = job.accepted_all(replies);
            &&& job.sent == 0
            &&& job.last_event_id.len() == 0
            &&& later.wf()
            &&& later.done() <==> replies.len() == chunks.len()
            &&& replies.len() < chunks.len() ==> {
                &&& later.put(txn).method == HttpMethod::Put
                &&& later.put(txn).url == adapter.homeserver_url + "/_matrix/client/v3/rooms/"@
                    + room_id + "/send/m.room.message/"@ + txn
                &&& later.put(txn).body matches Some(body) && says_plainly(
                    body,
                    chunks[replies.len() as int],
                )
            }
        }),
{
    let job = sending(adapter, room_id, OutgoingView::Text(text), chunks);
    lemma_accepted_all(job, replies);
    law_text_goes_out_whole(text, chunks);
}

/// An HTML message that fits is sent to its room by one request, which says it
/// in HTML.
pub proof fn law_sent_html_goes_to_its_room(
    adapter: AdapterView,
    room_id: Seq<char>,
    plain: Seq<char>,
    html: Seq<char>,
    chunk: Seq<char>,
    txn: Seq<char>,
)
    requires
        encode_utf8(html).len() <= 8192,
        plain.len() > 0,
    ensures
        ({
            let job = sending(adapter, room_id, OutgoingView::Html { plain, html }, seq![chunk]);
            &&& job.bodies.len() == 1
            &&& job.sent == 0
            &&& job.put(txn).url == adapter.homeserver_url + "/_matrix/client/v3/rooms/"@ + room_id
                + "/send/m.room.message/"@ + txn
            &&& job.put(txn).body matches Some(body) && says_in_html(body, plain, html)
        }),
{
    law_html_goes_out_whole(plain, html, seq![chunk]);
}

/// An accepted request moves the job on by one and leaves it with the id in
/// the reply; nothing else about it changes.
pub proof fn law_accepted_request_moves_on_by_one(job: JobView, body: JsonView)
    ensures
        job.accepted(body).sent == job.sent + 1,
        job.accepted(body).bodies == job.bodies,
        job.accepted(body).room_id == job.room_id,
        job.accepted(body).homeserver_url == job.homeserver_url,
        body.field("event_id"@) matches JsonView::Text(id) ==> job.accepted(body).last_event_id
            == id,
        body.field("event_id"@) !is Text ==> job.accepted(body).last_event_id.len() == 0,
        job.done() <==> job.sent == job.bodies.len(),
{
}

/// A text with HTML goes out as HTML, just as it is, with its plain text
/// beside it; one without goes out just as it is; and in place of anything but
/// text a notice goes out.
pub proof fn law_content_goes_out_as_it_is(
    text: Seq<char>,
    url: Seq<char>,
    name: Seq<char>,
    caption: Option<Seq<char>>,
    args: Seq<Seq<char>>,
    has_html: bool,
)
    ensures
        text_plan(text, true) == (OutgoingView::Html { plain: stripped(text), html: text }),
        text_plan(text, false) == OutgoingView::Text(text),
        content_plan(ContentView::Text(text), true) == (OutgoingView::Html {
            plain: stripped(text),
            html: text,
        }),
        content_plan(ContentView::Text(text), false) == OutgoingView::Text(text),
        content_plan(ContentView::Image { url, caption }, has_html) == OutgoingView::Text(
            "(Unsupported content type)"@,
        ),
        content_plan(ContentView::File { url, filename: name }, has_html) == OutgoingView::Text(
            "(Unsupported content type)"@,
        ),
        content_plan(ContentView::Command { name, args }, has_html) == OutgoingView::Text(
            "(Unsupported content type)"@,
        ),
{
}

/// An edit replaces the event that it names by the new content alone; clients
/// that know no replacements show the new content behind a star. With HTML the
/// new content is the HTML as it is, and the given content without its tags.
pub proof fn law_edit_replaces_its_event(
    event_id: Seq<char>,
    new_content: Seq<char>,
    html: Seq<char>,
)
    ensures
        ({
            let body = edit_body(event_id, new_content, None);
            let relation = body.field("m.relates_to"@);
            &&& body.field("msgtype"@) == JsonView::Text("m.text"@)
            &&& body.field("body"@) == JsonView::Text("* "@ + new_content)
            &&& body.field("format"@) == JsonView::Null
            &&& body.field("formatted_body"@) == JsonView::Null
            &&& says_plainly(body.field("m.new_content"@), new_content)
            &&& relation.field("rel_type"@) == JsonView::Text("m.replace"@)
            &&& relation.field("event_id"@) == JsonView::Text(event_id)
        }),
        ({
            let body = edit_body(event_id, new_content, Some(html));
            let relation = body.field("m.relates_to"@);
            &&& body.field("msgtype"@) == JsonView::Text("m.text"@)
            &&& body.field("body"@) == JsonView::Text("* "@ + stripped(new_content))
            &&& body.field("format"@) == JsonView::Text("org.matrix.custom.html"@)
            &&& body.field("formatted_body"@) == JsonView::Text(html)
            &&& says_in_html(body.field("m.new_content"@), stripped(new_content), html)
            &&& relation.field("rel_type"@) == JsonView::Text("m.replace"@)
            &&& relation.field("event_id"@) == JsonView::Text(event_id)
        }),
{
    lemma_names_differ();
    lemma_bodies_say(new_content, html);
    lemma_bodies_say(stripped(new_content), html);
    reveal_with_fuel(member, 7);
    let t = edit_body(event_id, new_content, None)->Object_0;
    assert(t.skip(1)[0] == t[1]);
    assert(t.skip(1).skip(1)[0] == t[2]);
    assert(t.skip(1).skip(1).skip(1)[0] == t[3]);
    let h = edit_body(event_id, new_content, Some(html))->Object_0;
    assert(h.skip(1)[0] == h[1]);
    assert(h.skip(1).skip(1)[0] == h[2]);
    assert(h.skip(1).skip(1).skip(1)[0] == h[3]);
    assert(h.skip(1).skip(1).skip(1).skip(1)[0] == h[4]);
    assert(h.skip(1).skip(1).skip(1).skip(1).skip(1)[0] == h[5]);
    let r = replace_relation(event_id)->Object_0;
    assert(r.skip(1)[0] == r[1]);
}

/// Outgoing messages, and lists of documents, are seen in full.
pub proof fn law_outgoing_messages_are_seen_in_full(message: Outgoing, list: Seq<Json>)
    ensures
        message matches Outgoing::Text(s) ==> message@ == OutgoingView::Text(s@),
        message matches Outgoing::Html { plain, html } ==> message@ == (OutgoingView::Html {
            plain: plain@,
            html: html@,
        }),
        documents(list).len() == list.len(),
        forall|i: int| 0 <= i < list.len() ==> #[trigger] documents(list)[i] == list[i]@,
{
}

/// An accepted reply moves a job on, and a refused one leaves it as it is with
/// a complaint that holds the status and the text; so it is with an edit.
pub proof fn law_refused_messages_go_no_further(
    job: JobView,
    body: JsonView,
    status: Seq<char>,
    text: Seq<char>,
)
    ensures
        job.replied(ReplyView::Accepted(body)) == (job.accepted(body), Ok::<(), Seq<char>>(())),
        job.replied(ReplyView::Refused { status, text }) == (
            job,
            Err::<(), Seq<char>>("Matrix API error "@ + status + ": "@ + text),
        ),
        body.field("event_id"@) matches JsonView::Text(id) ==> edit_outcome(
            ReplyView::Accepted(body),
        ) == Ok::<Seq<char>, Seq<char>>(id),
        body.field("event_id"@) !is Text ==> edit_outcome(ReplyView::Accepted(body)) == Ok::<
            Seq<char>,
            Seq<char>,
        >(seq![]),
        edit_outcome(ReplyView::Refused { status, text }) == Err::<Seq<char>, Seq<char>>(
            "Matrix edit API error "@ + status + ": "@ + text,
        ),
{
}

/// A text goes out as HTML exactly if a mark of HTML stands in it in lower
/// case, and either way with all its characters as they are; in place of
/// anything but text a notice goes out.
pub proof fn law_text_with_marks_goes_out_as_html(content: ContentView)
    ensures
        content matches ContentView::Text(text) ==> {
            &&& has_html_mark(lowercase(text)) ==> planned(content) == (OutgoingView::Html {
                plain: stripped(text),
                html: text,
            })
            &&& !has_html_mark(lowercase(text)) ==> planned(content) == OutgoingView::Text(text)
        },
        content !is Text ==> planned(content) == OutgoingView::Text(
            "(Unsupported content type)"@,
        ),
{
}

/// An edit is put into the room of its event, on the adapter's homeserver,
/// under the transaction it is given.
pub proof fn law_edits_go_to_their_room(
    adapter: AdapterView,
    room_id: Seq<char>,
    event_id: Seq<char>,
    new_content: Seq<char>,
    new_html: Option<Seq<char>>,
    txn: Seq<char>,
)
    ensures
        editing(adapter, room_id, event_id, new_content, new_html, txn) == (RequestView {
            method: HttpMethod::Put,
            url: adapter.homeserver_url + "/_matrix/client/v3/rooms/"@ + room_id
                + "/send/m.room.message/"@ + txn,
            body: Some(edit_body(event_id, new_content, new_html)),
        }),
{
}

} // verus!
