//! Messages on their way in: what a room event says, and to whom.

use crate::adapter::{AdapterView, ChannelType, MatrixAdapter};
use crate::json::{member, members_view, Json, JsonView};
use crate::media::{download_url, mxc_to_download_url};
use crate::message::{ChannelContent, ChannelMessage, ChannelUser, ContentView, MessageView};
use crate::outside::{current_time, Timestamp};
use crate::requests::join_parts;
use crate::text::{
    chars_of, contains_text, drop_leading, has_text, law_trimming_takes_off_one_character, rows,
    same_text, split_at_first, split_once, split_words, string_of, texts, trim_start_of,
    trimmed_start_of, words,
};
use vstd::prelude::*;
use vstd::string::StringExecFns;

verus! {

/// A command: `/name` and its arguments after the first blank.
pub open spec fn command(body: Seq<char>) -> ContentView {
    let (head, rest) = split_once(body, ' ');
    ContentView::Command {
        name: trimmed_start_of(head, '/'),
        args: match rest {
            Some(args) => words(args),
            None => seq![],
        },
    }
}

/// What a text message says: nothing if it is empty, a command if it starts
/// with a slash.
pub open spec fn text_content(body: Seq<char>) -> Option<ContentView> {
    if body.len() == 0 {
        None
    } else if body[0] == '/' {
        Some(command(body))
    } else {
        Some(ContentView::Text(body))
    }
}

/// `s`, or `default` in place of the empty text.
pub open spec fn or_default(s: Seq<char>, default: Seq<char>) -> Seq<char> {
    if s.len() == 0 {
        default
    } else {
        s
    }
}

/// The note `[label: what]` in place of media that cannot be fetched.
pub open spec fn note(label: Seq<char>, what: Seq<char>) -> ContentView {
    ContentView::Text("["@ + label + ": "@ + what + "]"@)
}

/// An image with its caption, if it can be fetched.
pub open spec fn image_content(url: Option<Seq<char>>, body: Seq<char>) -> ContentView {
    match url {
        Some(url) => ContentView::Image {
            url,
            caption: if body.len() == 0 {
                None
            } else {
                Some(body)
            },
        },
        None => note("Image"@, body),
    }
}

/// A file with its name, if it can be fetched.
pub open spec fn file_content(
    url: Option<Seq<char>>,
    filename: Seq<char>,
    label: Seq<char>,
) -> ContentView {
    match url {
        Some(url) => ContentView::File { url, filename },
        None => note(label, filename),
    }
}

/// The text of a room event's message.
pub open spec fn event_body(event: JsonView) -> Seq<char> {
    event.field("content"@).field("body"@).text_or(seq![])
}

/// What a room event's message says, by its `msgtype`; one of no known type
/// is taken for text.
pub open spec fn event_content(homeserver: Seq<char>, event: JsonView) -> Option<ContentView> {
    let content = event.field("content"@);
    let body = event_body(event);
    let url = download_url(homeserver, content.field("url"@).text_or(seq![]));
    let msgtype = content.field("msgtype"@).text_or("m.text"@);
    if msgtype == "m.image"@ {
        Some(image_content(url, body))
    } else if msgtype == "m.file"@ {
        Some(file_content(url, content.field("filename"@).text_or(body), "File"@))
    } else if msgtype == "m.video"@ {
        Some(file_content(url, or_default(body, "video"@), "Video"@))
    } else if msgtype == "m.audio"@ {
        Some(file_content(url, or_default(body, "audio"@), "Audio"@))
    } else {
        text_content(body)
    }
}

/// Owned strings for character buffers.
fn strings_of(list: &Vec<Vec<char>>) -> (r: Vec<String>)
    ensures
        texts(r@) == rows(list@),
{
    let mut out: Vec<String> = Vec::new();
    for i in 0..list.len()
        invariant
            out@.len() == i,
            forall|j: int| 0 <= j < i ==> (#[trigger] out@[j])@ == list@[j]@,
    {
        out.push(string_of(list[i].as_slice()));
    }
    assert(texts(out@) =~= rows(list@));
    out
}

fn read_text(body: &str) -> (r: Option<ChannelContent>)
    ensures
        r is Some <==> text_content(body@) is Some,
        r matches Some(c) ==> text_content(body@) == Some(c@),
{
    let chars = chars_of(body);
    if chars.len() == 0 {
        return None;
    }
    if chars[0] != '/' {
        return Some(ChannelContent::Text(body.to_string()));
    }
    let (head, rest) = split_at_first(chars.as_slice(), ' ');
    let name = string_of(trim_start_of(head.as_slice(), '/').as_slice());
    let args = match rest {
        Some(args) => strings_of(&split_words(args.as_slice())),
        None => {
            let none: Vec<String> = Vec::new();
            assert(texts(none@) =~= seq![]);
            none
        },
    };
    Some(ChannelContent::Command { name, args })
}

fn note_text(label: &str, what: &str) -> (r: ChannelContent)
    ensures
        r@ == note(label@, what@),
{
    let mut out = join_parts("[", label, ": ", what);
    out.append("]");
    ChannelContent::Text(out)
}

fn read_file(
    homeserver: &str,
    mxc_url: &str,
    filename: &str,
    label: &str,
) -> (r: ChannelContent)
    ensures
        r@ == file_content(download_url(homeserver@, mxc_url@), filename@, label@),
{
    match mxc_to_download_url(homeserver, mxc_url) {
        Some(url) => ChannelContent::File { url, filename: filename.to_string() },
        None => note_text(label, filename),
    }
}

fn read_image(homeserver: &str, mxc_url: &str, body: &str) -> (r: ChannelContent)
    ensures
        r@ == image_content(download_url(homeserver@, mxc_url@), body@),
{
    match mxc_to_download_url(homeserver, mxc_url) {
        Some(url) => {
            let caption = if body.is_empty() {
                None
            } else {
                Some(body.to_string())
            };
            ChannelContent::Image { url, caption }
        },
        None => note_text("Image", body),
    }
}

/// The text under `key` of an event's content, or `default`.
fn content_text<'a>(event: &'a Json, key: &str, default: &'a str) -> (r: &'a str)
    ensures
        r@ == event@.field("content"@).field(key@).text_or(default@),
{
    match event.get("content") {
        Some(content) => match content.text_at(key) {
            Some(s) => s,
            None => default,
        },
        None => default,
    }
}

/// What a room event's message says.
pub fn read_content(homeserver: &str, event: &Json) -> (r: Option<ChannelContent>)
    ensures
        r is Some <==> event_content(homeserver@, event@) is Some,
        r matches Some(c) ==> event_content(homeserver@, event@) == Some(c@),
{
    proof {
        reveal_strlit("");
        assert(""@ =~= seq![]);
    }
    let body = content_text(event, "body", "");
    let mxc_url = content_text(event, "url", "");
    let msgtype = content_text(event, "msgtype", "m.text");
    if same_text(msgtype, "m.image") {
        Some(read_image(homeserver, mxc_url, body))
    } else if same_text(msgtype, "m.file") {
        let filename = content_text(event, "filename", body);
        Some(read_file(homeserver, mxc_url, filename, "File"))
    } else if same_text(msgtype, "m.video") {
        let filename = if body.is_empty() {
            "video"
        } else {
            body
        };
        Some(read_file(homeserver, mxc_url, filename, "Video"))
    } else if same_text(msgtype, "m.audio") {
        let filename = if body.is_empty() {
            "audio"
        } else {
            body
        };
        Some(read_file(homeserver, mxc_url, filename, "Audio"))
    } else {
        read_text(body)
    }
}

/// A message of which it is not yet known whether its room is a group.
#[derive(Debug, PartialEq, Eq)]
pub struct PendingMessage {
    pub room_id: String,
    pub event_id: String,
    pub sender: String,
    pub content: ChannelContent,
    /// The text holds the id of the user that the channel acts for.
    pub mentioned: bool,
}

/// A pending message, as the specifications see it.
pub struct PendingView {
    pub room_id: Seq<char>,
    pub event_id: Seq<char>,
    pub sender: Seq<char>,
    pub content: ContentView,
    pub mentioned: bool,
}

impl View for PendingMessage {
    type V = PendingView;

    open spec fn view(&self) -> PendingView {
        PendingView {
            room_id: self.room_id@,
            event_id: self.event_id@,
            sender: self.sender@,
            content: self.content@,
            mentioned: self.mentioned,
        }
    }
}

/// The message that the event of `room` brings, if it brings one: it is a
/// room message, someone else sent it, and it says something.
pub open spec fn incoming(
    adapter: AdapterView,
    room: Seq<char>,
    event: JsonView,
) -> Option<PendingView> {
    let sender = event.field("sender"@).text_or(seq![]);
    if event.field("type"@).text_or(seq![]) != "m.room.message"@ || sender == adapter.user_id {
        None
    } else {
        match event_content(adapter.homeserver_url, event) {
            Some(content) => Some(
                PendingView {
                    room_id: room,
                    event_id: event.field("event_id"@).text_or(seq![]),
                    sender,
                    content,
                    mentioned: has_text(event_body(event), adapter.user_id),
                },
            ),
            None => None,
        }
    }
}

fn event_text<'a>(event: &'a Json, key: &str) -> (r: &'a str)
    ensures
        r@ == event@.field(key@).text_or(seq![]),
{
    proof {
        reveal_strlit("");
        assert(""@ =~= seq![]);
    }
    match event.text_at(key) {
        Some(s) => s,
        None => "",
    }
}

impl MatrixAdapter {
    /// The message that the event of the room brings, if it brings one.
    pub fn read_event(&self, room_id: &str, event: &Json) -> (r: Option<PendingMessage>)
        ensures
            r is Some <==> incoming(self@, room_id@, event@) is Some,
            r matches Some(m) ==> incoming(self@, room_id@, event@) == Some(m@),
    {
        if !same_text(event_text(event, "type"), "m.room.message") {
            return None;
        }
        let sender = event_text(event, "sender");
        if same_text(sender, self.user_id()) {
            return None;
        }
        proof {
            reveal_strlit("");
            assert(""@ =~= seq![]);
        }
        match read_content(self.homeserver_url(), event) {
            None => None,
            Some(content) => {
                let body = content_text(event, "body", "");
                let mentioned = contains_text(
                    chars_of(body).as_slice(),
                    chars_of(self.user_id()).as_slice(),
                );
                Some(
                    PendingMessage {
                        room_id: room_id.to_string(),
                        event_id: event_text(event, "event_id").to_string(),
                        sender: sender.to_string(),
                        content,
                        mentioned,
                    },
                )
            },
        }
    }
}

/// A room with more than two members is a group; so is one of which the
/// number of members is not known.
pub open spec fn group_of(member_count: Option<usize>) -> bool {
    match member_count {
        Some(n) => n > 2,
        None => true,
    }
}

/// What is noted of a message: that it mentions the user, which a message
/// outside a group always does, and that it stands outside a group.
pub open spec fn notes(mentioned: bool, is_group: bool) -> Seq<(Seq<char>, JsonView)> {
    (if mentioned || !is_group {
        seq![("was_mentioned"@, JsonView::Bool(true))]
    } else {
        seq![]
    }) + (if !is_group {
        seq![("is_dm"@, JsonView::Bool(true))]
    } else {
        seq![]
    })
}

/// The message that is handed on, of the pending one.
pub open spec fn completed_message(
    pending: PendingView,
    member_count: Option<usize>,
    timestamp: Timestamp,
) -> MessageView {
    MessageView {
        channel: ChannelType::Matrix,
        platform_message_id: pending.event_id,
        room_id: pending.room_id,
        sender: pending.sender,
        openfang_user: None,
        content: pending.content,
        target_agent: None,
        timestamp,
        is_group: group_of(member_count),
        thread_id: None,
        metadata: notes(pending.mentioned, group_of(member_count)),
    }
}

impl PendingMessage {
    /// The message to hand on now, given the number of members of its room.
    pub fn complete(self, member_count: Option<usize>) -> (r: ChannelMessage)
        ensures
            r@ == completed_message(self@, member_count, r.timestamp),
            r.timestamp.secs >= 0,
            r.timestamp.nanos < 1_000_000_000,
    {
        let now = current_time();
        self.complete_at(member_count, now)
    }

    /// The message to hand on at the given time.
    pub fn complete_at(self, member_count: Option<usize>, timestamp: Timestamp) -> (r:
        ChannelMessage)
        ensures
            r@ == completed_message(self@, member_count, timestamp),
    {
        let is_group = match member_count {
            Some(n) => n > 2,
            None => true,
        };
        let mut metadata: Vec<(String, Json)> = Vec::new();
        if self.mentioned || !is_group {
            metadata.push(("was_mentioned".to_string(), Json::Bool(true)));
        }
        if !is_group {
            metadata.push(("is_dm".to_string(), Json::Bool(true)));
        }
        assert(members_view(metadata@) =~= notes(self.mentioned, is_group));
        ChannelMessage {
            channel: ChannelType::Matrix,
            platform_message_id: self.event_id,
            sender: ChannelUser {
                platform_id: self.room_id,
                display_name: self.sender,
                openfang_user: None,
            },
            content: self.content,
            target_agent: None,
            timestamp,
            is_group,
            thread_id: None,
            metadata,
        }
    }
}

/// The channel never hears itself: an event that the user sent brings no
/// message.
pub proof fn law_own_messages_are_skipped(
    adapter: AdapterView,
    room: Seq<char>,
    event: JsonView,
)
    requires
        event.field("sender"@) == JsonView::Text(adapter.user_id),
    ensures
        incoming(adapter, room, event) is None,
{
}

/// A message in a room of two is noted as direct and as a mention; one in a
/// group only ever as a mention, where the text names the user.
pub proof fn law_direct_messages_are_noted(
    pending: PendingView,
    member_count: Option<usize>,
    timestamp: Timestamp,
)
    ensures
        ({
            let message = completed_message(pending, member_count, timestamp);
            let facts = JsonView::Object(message.metadata);
            &&& message.is_group <==> (member_count is Some ==> member_count->0 > 2)
            &&& facts.field("is_dm"@) == if message.is_group {
                JsonView::Null
            } else {
                JsonView::Bool(true)
            }
            &&& facts.field("was_mentioned"@) == if message.is_group && !pending.mentioned {
                JsonView::Null
            } else {
                JsonView::Bool(true)
            }
        }),
{
    reveal_with_fuel(member, 3);
    reveal_strlit("is_dm");
    reveal_strlit("was_mentioned");
    assert("is_dm"@[0] != "was_mentioned"@[0]);
    let facts = notes(pending.mentioned, group_of(member_count));
    if facts.len() > 0 {
        assert(facts.skip(1).len() == facts.len() - 1);
        if facts.len() > 1 {
            assert(facts.skip(1)[0] == facts[1]);
        }
    }
}

/// A text `/name` is the command `name` without arguments, and `/name rest`
/// the command with the words of the rest.
pub proof fn law_commands_are_read(name: Seq<char>, rest: Seq<char>)
    requires
        !name.contains(' '),
        name.len() > 0 ==> name[0] != '/',
    ensures
        text_content("/"@ + name) == Some(ContentView::Command { name, args: seq![] }),
        text_content("/"@ + name + " "@ + rest) == Some(
            ContentView::Command { name, args: words(rest) },
        ),
{
    reveal_strlit("/");
    reveal_strlit(" ");
    let head = "/"@ + name;
    assert forall|i: int| 0 <= i < head.len() implies head[i] != ' ' by {
        if i > 0 {
            assert(head[i] == name[i - 1]);
        }
    }
    assert(trimmed_start_of(head, '/') == name) by {
        reveal_with_fuel(drop_leading, 3);
        assert(head.skip(1) =~= name);
    }
    head.index_of_first_ensures(' ');
    assert(!head.contains(' '));
    assert(split_once(head, ' ') == (head, None::<Seq<char>>));

    let full = head + " "@ + rest;
    let n = head.len() as int;
    full.index_of_first_ensures(' ');
    assert(full[n] == ' ');
    assert(full.contains(' '));
    let k = full.index_of_first(' ')->0;
    assert(k == n) by {
        if k < n {
            assert(full[k] == head[k]);
        }
    }
    assert(full.take(n) =~= head);
    assert(full.skip(n + 1) =~= rest);
    assert(full[0] == '/');
}

proof fn lemma_types_differ()
    ensures
        "m.text"@ != "m.image"@,
        "m.text"@ != "m.file"@,
        "m.text"@ != "m.video"@,
        "m.text"@ != "m.audio"@,
        "m.image"@ != "m.file"@,
        "m.image"@ != "m.video"@,
        "m.image"@ != "m.audio"@,
        "m.file"@ != "m.video"@,
        "m.file"@ != "m.audio"@,
        "m.video"@ != "m.audio"@,
{
    reveal_strlit("m.text");
    reveal_strlit("m.image");
    reveal_strlit("m.file");
    reveal_strlit("m.video");
    reveal_strlit("m.audio");
    assert("m.text"@[2] == 't');
    assert("m.image"@[2] == 'i');
    assert("m.file"@[2] == 'f');
    assert("m.video"@[2] == 'v');
    assert("m.audio"@[2] == 'a');
}

/// The event's message is a text: it is of the type for texts, or of none, or
/// of one that is not for media.
pub open spec fn says_text(event: JsonView) -> bool {
    match event.field("content"@).field("msgtype"@) {
        JsonView::Text(msgtype) => msgtype != "m.image"@ && msgtype != "m.file"@ && msgtype
            != "m.video"@ && msgtype != "m.audio"@,
        _ => true,
    }
}

/// A text that is no command is handed on with exactly the characters of its
/// body, tags and white space included; an empty one says nothing.
pub proof fn law_text_is_handed_on_as_it_is(
    homeserver: Seq<char>,
    event: JsonView,
    body: Seq<char>,
)
    ensures
        body.len() > 0 && body[0] != '/' ==> text_content(body) == Some(ContentView::Text(body)),
        body.len() == 0 ==> text_content(body) is None,
        says_text(event) && event.field("content"@).field("body"@) == JsonView::Text(body)
            && body.len() > 0 && body[0] != '/' ==> event_content(homeserver, event) == Some(
            ContentView::Text(body),
        ),
        says_text(event) && (event.field("content"@).field("body"@) !is Text
            || event.field("content"@).field("body"@) == JsonView::Text(seq![]))
            ==> event_content(homeserver, event) is None,
        event.field("content"@).field("msgtype"@) == JsonView::Text("m.text"@) ==> says_text(
            event,
        ),
{
    lemma_types_differ();
}

/// A text is a command exactly if it starts with a slash, in an event as by
/// itself: all the slashes at the start of its first part are dropped to give
/// the name, and the words after the first blank are the arguments.
pub proof fn law_leading_slashes_make_a_command(
    homeserver: Seq<char>,
    event: JsonView,
    slashes: Seq<char>,
    name: Seq<char>,
    rest: Seq<char>,
)
    requires
        slashes.len() > 0,
        forall|i: int| 0 <= i < slashes.len() ==> #[trigger] slashes[i] == '/',
        !name.contains(' '),
        name.len() > 0 ==> name[0] != '/',
    ensures
        text_content(slashes + name) == Some(ContentView::Command { name, args: seq![] }),
        text_content(slashes + name + seq![' '] + rest) == Some(
            ContentView::Command { name, args: words(rest) },
        ),
        says_text(event) && event.field("content"@).field("body"@) == JsonView::Text(
            slashes + name,
        ) ==> event_content(homeserver, event) == Some(
            ContentView::Command { name, args: seq![] },
        ),
        says_text(event) && event.field("content"@).field("body"@) == JsonView::Text(
            slashes + name + seq![' '] + rest,
        ) ==> event_content(homeserver, event) == Some(
            ContentView::Command { name, args: words(rest) },
        ),
{
    lemma_types_differ();
    let head = slashes + name;
    assert(head[0] == slashes[0]);
    law_trimming_takes_off_one_character(slashes, name, '/');
    assert forall|i: int| 0 <= i < head.len() implies head[i] != ' ' by {
        if i < slashes.len() {
            assert(head[i] == slashes[i]);
        } else {
            assert(head[i] == name[i - slashes.len()]);
        }
    }
    head.index_of_first_ensures(' ');
    assert(!head.contains(' '));
    let full = head + seq![' '] + rest;
    let n = head.len() as int;
    full.index_of_first_ensures(' ');
    assert(full[n] == ' ');
    assert(full.contains(' '));
    let k = full.index_of_first(' ')->0;
    assert(k == n) by {
        if k < n {
            assert(full[k] == head[k]);
        }
    }
    assert(full.take(n) =~= head);
    assert(full.skip(n + 1) =~= rest);
    assert(full[0] == slashes[0]);
}

/// An image is handed on with the address to fetch it from and its body as
/// the caption, if there is one; an image without an address as a note.
pub proof fn law_images_are_handed_on(homeserver: Seq<char>, event: JsonView, url: Seq<char>)
    requires
        event.field("content"@).field("msgtype"@) == JsonView::Text("m.image"@),
        event.field("content"@).field("url"@).text_or(seq![]) == url,
    ensures
        ({
            let body = event.field("content"@).field("body"@).text_or(seq![]);
            event_content(homeserver, event) == Some(
                match download_url(homeserver, url) {
                    Some(address) => if body.len() == 0 {
                        ContentView::Image { url: address, caption: None }
                    } else {
                        ContentView::Image { url: address, caption: Some(body) }
                    },
                    None => ContentView::Text("[Image: "@ + body + "]"@),
                },
            )
        }),
{
    lemma_types_differ();
    let body = event.field("content"@).field("body"@).text_or(seq![]);
    reveal_strlit("[");
    reveal_strlit("Image");
    reveal_strlit(": ");
    reveal_strlit("[Image: ");
    assert("["@ + "Image"@ + ": "@ + body + "]"@ =~= "[Image: "@ + body + "]"@);
}

/// A file, a video or a sound is handed on with the address to fetch it from
/// and its name; without an address, as a note of its kind and name. The name
/// of a file is its `filename`, or its body where it has none. That of a video
/// or a sound is its body, or the kind where that is empty.
pub proof fn law_files_are_handed_on(homeserver: Seq<char>, event: JsonView, url: Seq<char>)
    requires
        event.field("content"@).field("url"@).text_or(seq![]) == url,
    ensures
        ({
            let content = event.field("content"@);
            let body = content.field("body"@).text_or(seq![]);
            let name = match content.field("filename"@) {
                JsonView::Text(filename) => filename,
                _ => body,
            };
            let msgtype = content.field("msgtype"@);
            let address = download_url(homeserver, url);
            let r = event_content(homeserver, event);
            &&& msgtype == JsonView::Text("m.file"@) && address is Some ==> r == Some(
                ContentView::File { url: address->0, filename: name },
            )
            &&& msgtype == JsonView::Text("m.file"@) && address is None ==> r == Some(
                ContentView::Text("[File: "@ + name + "]"@),
            )
            &&& msgtype == JsonView::Text("m.video"@) && address is Some ==> r == Some(
                ContentView::File {
                    url: address->0,
                    filename: if body.len() > 0 {
                        body
                    } else {
                        "video"@
                    },
                },
            )
            &&& msgtype == JsonView::Text("m.video"@) && address is None ==> r == Some(
                ContentView::Text(
                    if body.len() > 0 {
                        "[Video: "@ + body + "]"@
                    } else {
                        "[Video: video]"@
                    },
                ),
            )
            &&& msgtype == JsonView::Text("m.audio"@) && address is Some ==> r == Some(
                ContentView::File {
                    url: address->0,
                    filename: if body.len() > 0 {
                        body
                    } else {
                        "audio"@
                    },
                },
            )
            &&& msgtype == JsonView::Text("m.audio"@) && address is None ==> r == Some(
                ContentView::Text(
                    if body.len() > 0 {
                        "[Audio: "@ + body + "]"@
                    } else {
                        "[Audio: audio]"@
                    },
                ),
            )
        }),
{
    lemma_types_differ();
    let content = event.field("content"@);
    let body = content.field("body"@).text_or(seq![]);
    let name = content.field("filename"@).text_or(body);
    reveal_strlit("[");
    reveal_strlit("]");
    reveal_strlit(": ");
    reveal_strlit("File");
    reveal_strlit("Video");
    reveal_strlit("Audio");
    reveal_strlit("video");
    reveal_strlit("audio");
    reveal_strlit("[File: ");
    reveal_strlit("[Video: ");
    reveal_strlit("[Audio: ");
    reveal_strlit("[Video: video]");
    reveal_strlit("[Audio: audio]");
    assert("["@ + "File"@ + ": "@ + name + "]"@ =~= "[File: "@ + name + "]"@);
    assert("["@ + "Video"@ + ": "@ + body + "]"@ =~= "[Video: "@ + body + "]"@);
    assert("["@ + "Audio"@ + ": "@ + body + "]"@ =~= "[Audio: "@ + body + "]"@);
    assert("["@ + "Video"@ + ": "@ + "video"@ + "]"@ =~= "[Video: video]"@);
    assert("["@ + "Audio"@ + ": "@ + "audio"@ + "]"@ =~= "[Audio: audio]"@);
}

/// An event brings a message exactly if it is a room message that someone else
/// sent and that says something. The message then names the event, its room
/// and its sender, says what the event says, and is a mention exactly if the
/// body holds the id of the user.
pub proof fn law_events_of_others_bring_messages(
    adapter: AdapterView,
    room: Seq<char>,
    event: JsonView,
)
    ensures
        incoming(adapter, room, event) is Some <==> {
            &&& event.field("type"@) == JsonView::Text("m.room.message"@)
            &&& event.field("sender"@).text_or(seq![]) != adapter.user_id
            &&& event_content(adapter.homeserver_url, event) is Some
        },
        incoming(adapter, room, event) matches Some(m) ==> {
            &&& m.room_id == room
            &&& m.event_id == event.field("event_id"@).text_or(seq![])
            &&& m.sender == event.field("sender"@).text_or(seq![])
            &&& event_content(adapter.homeserver_url, event) == Some(m.content)
            &&& m.mentioned <==> has_text(
                event.field("content"@).field("body"@).text_or(seq![]),
                adapter.user_id,
            )
        },
{
    reveal_strlit("m.room.message");
}

/// A message is handed on as it came: the room, the sender, the event and what
/// it says stay what they were, and nothing is made up.
pub proof fn law_messages_are_handed_on_as_they_came(
    pending: PendingView,
    member_count: Option<usize>,
    timestamp: Timestamp,
)
    ensures
        ({
            let message = completed_message(pending, member_count, timestamp);
            &&& message.channel == ChannelType::Matrix
            &&& message.platform_message_id == pending.event_id
            &&& message.room_id == pending.room_id
            &&& message.sender == pending.sender
            &&& message.content == pending.content
            &&& message.timestamp == timestamp
            &&& message.openfang_user is None
            &&& message.target_agent is None
            &&& message.thread_id is None
            &&& message.metadata.len() <= 2
            &&& message.is_group && pending.mentioned ==> message.metadata == seq![
                ("was_mentioned"@, JsonView::Bool(true)),
            ]
            &&& message.is_group && !pending.mentioned ==> message.metadata.len() == 0
            &&& !message.is_group ==> message.metadata == seq![
                ("was_mentioned"@, JsonView::Bool(true)),
                ("is_dm"@, JsonView::Bool(true)),
            ]
        }),
{
}

} // verus!
