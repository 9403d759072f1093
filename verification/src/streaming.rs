//! A reply that is still being written: it is sent once there is something to
//! show, and then edited in place as it grows.

use crate::html::{strip_html_tags, stripped};
use crate::incoming::or_default;
use crate::outgoing::{fallback, html_body, Outgoing, OutgoingView, MAX_MESSAGE_LEN};
use crate::outside::{compact_json, value_display, value_to_json};
use crate::text::{chars_of, opt_str, opt_text, same_text};
use crate::tools::{
    format_tool_calls_html, tool_call, tool_calls, tool_calls_html, ToolCall, ToolCallInfo,
    NO_PARAMS,
};
use vstd::prelude::*;
use vstd::string::StringExecFns;
use vstd::utf8::encode_utf8;

verus! {

/// The message is edited for new text at most every so many milliseconds.
pub const EDIT_INTERVAL_MS: u128 = 500;

/// The message is edited for new text only if there is so much of it.
pub const MIN_EDIT_CHARS: usize = 50;

/// What happens while a reply is written.
#[derive(Debug)]
pub enum StreamEvent {
    /// More of the text.
    TextDelta { text: String },
    /// A tool is about to be called.
    ToolUseStart { name: String },
    /// More of what goes into the call.
    ToolInputDelta { text: String },
    /// All that goes into the call.
    ToolUseEnd { name: String, input: serde_json::Value },
    /// What came out of the call.
    ToolExecutionResult { name: String, result_preview: String, is_error: bool },
    /// The reply is complete.
    ContentComplete,
    /// Another phase of the work begins.
    PhaseChange { phase: String, detail: Option<String> },
    /// Anything else.
    Other,
}

/// What happens while a reply is written, as the specifications see it.
pub enum EventView {
    TextDelta(Seq<char>),
    ToolUseStart(Seq<char>),
    ToolInputDelta(Seq<char>),
    ToolUseEnd { name: Seq<char>, input: Seq<char> },
    ToolExecutionResult { name: Seq<char>, result_preview: Seq<char>, is_error: bool },
    ContentComplete,
    Unnoticed,
}

/// What is shown of the input of a tool, of which serde_json may have made
/// JSON text, and whose `Display` is `fallback`.
pub open spec fn chosen_input(serialized: Option<Seq<char>>, fallback: Seq<char>) -> Seq<char> {
    match serialized {
        Some(json) => if json == "null"@ || json.len() == 0 {
            or_default(fallback, NO_PARAMS@)
        } else {
            json
        },
        None => or_default(fallback, NO_PARAMS@),
    }
}

/// Picks what is shown of the input of a tool.
pub fn choose_input(serialized: Option<&str>, fallback: &str) -> (r: String)
    ensures
        r@ == chosen_input(opt_str(serialized), fallback@),
{
    if let Some(json) = serialized {
        if !same_text(json, "null") && !json.is_empty() {
            return json.to_string();
        }
    }
    if fallback.is_empty() {
        NO_PARAMS.to_string()
    } else {
        fallback.to_string()
    }
}

/// What is shown of the input of a tool: its compact JSON text.
pub fn input_preview(input: &serde_json::Value) -> (r: String)
    ensures
        r@ == or_default(compact_json(*input), NO_PARAMS@),
{
    proof {
        reveal_strlit("null");
    }
    let fallback = value_display(input);
    match value_to_json(input) {
        Ok(json) => choose_input(Some(json.as_str()), fallback.as_str()),
        Err(_) => choose_input(None, fallback.as_str()),
    }
}

impl View for StreamEvent {
    type V = EventView;

    open spec fn view(&self) -> EventView {
        match self {
            StreamEvent::TextDelta { text } => EventView::TextDelta(text@),
            StreamEvent::ToolUseStart { name } => EventView::ToolUseStart(name@),
            StreamEvent::ToolInputDelta { text } => EventView::ToolInputDelta(text@),
            StreamEvent::ToolUseEnd { name, input } => EventView::ToolUseEnd {
                name: name@,
                input: or_default(compact_json(*input), NO_PARAMS@),
            },
            StreamEvent::ToolExecutionResult { name, result_preview, is_error } =>
                EventView::ToolExecutionResult {
                name: name@,
                result_preview: result_preview@,
                is_error: *is_error,
            },
            StreamEvent::ContentComplete => EventView::ContentComplete,
            StreamEvent::PhaseChange { .. } => EventView::Unnoticed,
            StreamEvent::Other => EventView::Unnoticed,
        }
    }
}

/// A reply that is being written.
#[derive(Debug)]
pub struct StreamState {
    accumulated: String,
    last_event_id: Option<String>,
    last_edit_len: usize,
    last_edit_ns: u128,
    tool_calls: Vec<ToolCallInfo>,
    current_tool_input: Option<String>,
}

/// A reply that is being written, as the specifications see it.
pub struct StreamView {
    /// The text so far.
    pub accumulated: Seq<char>,
    /// The event that shows the reply, once there is one.
    pub last_event_id: Option<Seq<char>>,
    /// How long the text was when it was last shown because of new text.
    pub last_edit_len: int,
    /// When that was, in nanoseconds.
    pub last_edit_ns: int,
    /// The tool calls so far.
    pub tools: Seq<ToolCall>,
    /// What is known of the input of the tool that is about to be called.
    pub current_tool_input: Option<Seq<char>>,
}

impl View for StreamState {
    type V = StreamView;

    closed spec fn view(&self) -> StreamView {
        StreamView {
            accumulated: self.accumulated@,
            last_event_id: opt_text(self.last_event_id),
            last_edit_len: self.last_edit_len as int,
            last_edit_ns: self.last_edit_ns as int,
            tools: tool_calls(self.tool_calls@),
            current_tool_input: opt_text(self.current_tool_input),
        }
    }
}

/// What is to be done after an event.
#[derive(Debug, Clone, Copy, PartialEq, Eq, Structural)]
pub enum StreamAction {
    /// Nothing.
    Idle,
    /// Showing the reply as it stands; that this fails does no harm.
    Refresh,
    /// Showing the complete reply.
    Finish,
}

/// A failure to show the reply because of `action` ends the stream.
pub open spec fn failure_ends(action: StreamAction) -> bool {
    action == StreamAction::Finish
}

/// Whether a failure to show the reply because of `action` ends the stream with
/// an error: that of the complete reply does, any other is passed over.
pub fn failure_counts(action: StreamAction) -> (r: bool)
    ensures
        r == (action == StreamAction::Finish),
        r == failure_ends(action),
{
    action == StreamAction::Finish
}

/// How the reply is to be shown.
#[derive(Debug, PartialEq, Eq)]
pub enum StreamUpdate {
    /// By editing the event that shows it.
    Edit { event_id: String, plain: String, html: String },
    /// By a new message.
    New(Outgoing),
}

/// How the reply is to be shown, as the specifications see it.
pub enum UpdateView {
    Edit { event_id: Seq<char>, plain: Seq<char>, html: Seq<char> },
    New(OutgoingView),
}

impl View for StreamUpdate {
    type V = UpdateView;

    open spec fn view(&self) -> UpdateView {
        match self {
            StreamUpdate::Edit { event_id, plain, html } => UpdateView::Edit {
                event_id: event_id@,
                plain: plain@,
                html: html@,
            },
            StreamUpdate::New(message) => UpdateView::New(message@),
        }
    }
}

/// `t` is a call of the tool `name` that is still running.
pub open spec fn is_running(t: ToolCall, name: Seq<char>) -> bool {
    t.name == name && t.loading
}

/// The first running call of the tool `name` is the one at `i`.
pub open spec fn first_running(tools: Seq<ToolCall>, name: Seq<char>, i: int) -> bool {
    &&& 0 <= i < tools.len()
    &&& is_running(tools[i], name)
    &&& forall|j: int| 0 <= j < i ==> !is_running(#[trigger] tools[j], name)
}

/// Where the first running call of the tool `name` stands.
pub open spec fn running_index(tools: Seq<ToolCall>, name: Seq<char>) -> Option<int> {
    if exists|i: int| first_running(tools, name, i) {
        Some(choose|i: int| first_running(tools, name, i))
    } else {
        None
    }
}

/// The tool calls once the input of the first running call of `name` is known.
pub open spec fn with_input(
    tools: Seq<ToolCall>,
    name: Seq<char>,
    input: Seq<char>,
) -> Seq<ToolCall> {
    match running_index(tools, name) {
        Some(i) => tools.update(i, ToolCall { input: Some(input), ..tools[i] }),
        None => tools,
    }
}

/// The tool calls once the first running call of `name` has ended.
pub open spec fn with_output(
    tools: Seq<ToolCall>,
    name: Seq<char>,
    output: Seq<char>,
    failed: bool,
) -> Seq<ToolCall> {
    match running_index(tools, name) {
        Some(i) => tools.update(
            i,
            ToolCall { output: Some(output), loading: false, failed, ..tools[i] },
        ),
        None => tools,
    }
}

/// How many full milliseconds lie between `from` and `to`; none if `to` is
/// the earlier.
pub open spec fn elapsed_ms(from: int, to: int) -> int {
    if to >= from {
        (to - from) / 1_000_000
    } else {
        0
    }
}

/// How many characters the text grew by; none if it did not grow.
pub open spec fn growth(from: int, to: int) -> int {
    if to >= from {
        to - from
    } else {
        0
    }
}

impl StreamView {
    /// A reply of which nothing is written yet, at the time `now_ns`.
    pub open spec fn fresh(now_ns: int) -> StreamView {
        StreamView {
            accumulated: seq![],
            last_event_id: None,
            last_edit_len: 0,
            last_edit_ns: if now_ns >= HEAD_START_NS {
                now_ns - HEAD_START_NS
            } else {
                now_ns
            },
            tools: seq![],
            current_tool_input: None,
        }
    }

    /// There is enough new text to show, and it is time to.
    pub open spec fn due(self, now_ns: int) -> bool {
        &&& elapsed_ms(self.last_edit_ns, now_ns) > EDIT_INTERVAL_MS
        &&& growth(self.last_edit_len, self.accumulated.len() as int) >= MIN_EDIT_CHARS
    }

    /// The reply after the event `e`, and what is to be done.
    pub open spec fn step(self, e: EventView, now_ns: int) -> (StreamView, StreamAction) {
        match e {
            EventView::TextDelta(text) => {
                let grown = StreamView { accumulated: self.accumulated + text, ..self };
                if grown.due(now_ns) {
                    (
                        StreamView {
                            last_edit_len: grown.accumulated.len() as int,
                            last_edit_ns: now_ns,
                            ..grown
                        },
                        StreamAction::Refresh,
                    )
                } else {
                    (grown, StreamAction::Idle)
                }
            },
            EventView::ToolUseStart(name) => (
                StreamView {
                    tools: self.tools.push(
                        ToolCall { name, input: None, output: None, loading: true, failed: false },
                    ),
                    current_tool_input: Some(seq![]),
                    ..self
                },
                StreamAction::Refresh,
            ),
            EventView::ToolInputDelta(text) => (
                StreamView {
                    current_tool_input: match self.current_tool_input {
                        Some(input) => Some(input + text),
                        None => None,
                    },
                    ..self
                },
                StreamAction::Idle,
            ),
            EventView::ToolUseEnd { name, input } => (
                StreamView {
                    tools: with_input(self.tools, name, input),
                    current_tool_input: None,
                    ..self
                },
                StreamAction::Idle,
            ),
            EventView::ToolExecutionResult { name, result_preview, is_error } => (
                StreamView {
                    tools: with_output(self.tools, name, result_preview, is_error),
                    ..self
                },
                if self.last_event_id is Some {
                    StreamAction::Refresh
                } else {
                    StreamAction::Idle
                },
            ),
            EventView::ContentComplete => (self, StreamAction::Finish),
            EventView::Unnoticed => (self, StreamAction::Idle),
        }
    }

    /// The reply in HTML, given its text in HTML: the tool calls come first.
    pub open spec fn html(self, content_html: Seq<char>) -> Seq<char> {
        tool_calls_html(self.tools) + content_html
    }

    /// The reply in plain text, given its text in HTML: the tool calls come
    /// first.
    pub open spec fn plain(self, content_html: Seq<char>) -> Seq<char> {
        stripped(tool_calls_html(self.tools)) + stripped(content_html)
    }

    /// How the reply is shown: by an edit of the event that shows it already,
    /// or by a new message.
    pub open spec fn update(self, content_html: Seq<char>) -> UpdateView {
        match self.last_event_id {
            Some(event_id) => UpdateView::Edit {
                event_id,
                plain: self.plain(content_html),
                html: self.html(content_html),
            },
            None => UpdateView::New(
                OutgoingView::Html {
                    plain: self.plain(content_html),
                    html: self.html(content_html),
                },
            ),
        }
    }

    /// The reply after it was shown because of `action`. If that took a new
    /// message, `sent` is its event, which shows the reply from then on; but
    /// not the message with the complete reply, nor one whose event the
    /// homeserver did not name.
    pub open spec fn shown(self, action: StreamAction, sent: Option<Seq<char>>) -> StreamView {
        match sent {
            Some(event_id) => if action == StreamAction::Refresh && self.last_event_id is None
                && event_id.len() > 0 {
                StreamView { last_event_id: Some(event_id), ..self }
            } else {
                self
            },
            None => self,
        }
    }
}

/// How long before the start the text counts as last shown, in nanoseconds,
/// so that the first piece of text need not wait.
pub const HEAD_START_NS: u128 = 10_000_000_000;

impl StreamState {
    /// A reply of which nothing is written yet, at the time `now_ns`.
    pub fn new(now_ns: u128) -> (r: Self)
        ensures
            r@ == (StreamView {
                accumulated: seq![],
                last_event_id: None,
                last_edit_len: 0,
                last_edit_ns: if now_ns >= HEAD_START_NS {
                    now_ns - HEAD_START_NS
                } else {
                    now_ns as int
                },
                tools: seq![],
                current_tool_input: None,
            }),
            r@ == StreamView::fresh(now_ns as int),
    {
        let last_edit_ns: u128 = if now_ns >= HEAD_START_NS {
            now_ns - HEAD_START_NS
        } else {
            now_ns
        };
        let calls: Vec<ToolCallInfo> = Vec::new();
        assert(tool_calls(calls@) =~= seq![]);
        StreamState {
            accumulated: String::new(),
            last_event_id: None,
            last_edit_len: 0,
            last_edit_ns,
            tool_calls: calls,
            current_tool_input: None,
        }
    }

    /// The text so far.
    pub fn text(&self) -> (r: &str)
        ensures
            r@ == self@.accumulated,
    {
        self.accumulated.as_str()
    }

    /// The tool calls so far.
    pub fn tools(&self) -> (r: &Vec<ToolCallInfo>)
        ensures
            tool_calls(r@) == self@.tools,
    {
        &self.tool_calls
    }

    /// How the reply is to be shown, given its text in HTML.
    pub fn compose(&self, content_html: &str) -> (r: StreamUpdate)
        ensures
            r@ == self@.update(content_html@),
    {
        let tool_html = format_tool_calls_html(self.tool_calls.as_slice());
        let mut plain = strip_html_tags(tool_html.as_str());
        plain.append(strip_html_tags(content_html).as_str());
        let mut html = tool_html;
        html.append(content_html);
        match &self.last_event_id {
            Some(event_id) => StreamUpdate::Edit { event_id: event_id.clone(), plain, html },
            None => StreamUpdate::New(Outgoing::Html { plain, html }),
        }
    }

    /// Takes in that the reply was shown because of `action`, by the new
    /// message with the event `sent` if it took one.
    pub fn on_shown(&mut self, action: StreamAction, sent: Option<String>)
        ensures
            final(self)@ == old(self)@.shown(action, opt_text(sent)),
    {
        if let Some(event_id) = sent {
            if action == StreamAction::Refresh && self.last_event_id.is_none()
                && !event_id.as_str().is_empty() {
                self.last_event_id = Some(event_id);
            }
        }
    }

    fn find_running(&self, name: &str) -> (r: Option<usize>)
        ensures
            r matches Some(i) ==> i < self.tool_calls@.len() && running_index(self@.tools, name@)
                == Some(i as int),
            r is None ==> running_index(self@.tools, name@) is None,
    {
        let ghost tools = self@.tools;
        for i in 0..self.tool_calls.len()
            invariant
                tools == tool_calls(self.tool_calls@),
                forall|j: int| 0 <= j < i ==> !is_running(#[trigger] tools[j], name@),
        {
            let tool = &self.tool_calls[i];
            assert(tools[i as int] == tool_call(*tool));
            if same_text(tool.0.as_str(), name) && tool.3 {
                proof {
                    assert(first_running(tools, name@, i as int));
                    let k = choose|k: int| first_running(tools, name@, k);
                    assert(first_running(tools, name@, k));
                    assert(k == i) by {
                        if k < i {
                            assert(!is_running(tools[k], name@));
                        } else if k > i {
                            assert(!is_running(tools[i as int], name@));
                        }
                    }
                }
                return Some(i);
            }
        }
        None
    }

    /// Takes in what happened at the time `now_ns`, in nanoseconds of a clock
    /// that does not go back, and says what is to be done.
    pub fn on_event(&mut self, event: StreamEvent, now_ns: u128) -> (r: StreamAction)
        ensures
            (final(self)@, r) == old(self)@.step(event@, now_ns as int),
    {
        match event {
            StreamEvent::TextDelta { text } => {
                self.accumulated.append(text.as_str());
                let len: usize = chars_of(self.accumulated.as_str()).len();
                let chars_since_last: usize = if len >= self.last_edit_len {
                    len - self.last_edit_len
                } else {
                    0
                };
                let elapsed: u128 = if now_ns >= self.last_edit_ns {
                    (now_ns - self.last_edit_ns) / 1_000_000
                } else {
                    0
                };
                if elapsed > EDIT_INTERVAL_MS && chars_since_last >= MIN_EDIT_CHARS {
                    self.last_edit_len = len;
                    self.last_edit_ns = now_ns;
                    StreamAction::Refresh
                } else {
                    StreamAction::Idle
                }
            },
            StreamEvent::ToolUseStart { name } => {
                let ghost before = self.tool_calls@;
                let call: ToolCallInfo = (name, None, None, true, false);
                self.tool_calls.push(call);
                assert(tool_calls(self.tool_calls@) =~= tool_calls(before).push(tool_call(call)));
                let input = String::new();
                assert(input@ =~= seq![]);
                self.current_tool_input = Some(input);
                StreamAction::Refresh
            },
            StreamEvent::ToolInputDelta { text } => {
                if let Some(input) = &mut self.current_tool_input {
                    input.append(text.as_str());
                }
                StreamAction::Idle
            },
            StreamEvent::ToolUseEnd { name, input } => {
                if let Some(i) = self.find_running(name.as_str()) {
                    let ghost before = self.tool_calls@;
                    let preview = input_preview(&input);
                    self.tool_calls[i].1 = Some(preview);
                    assert(tool_calls(self.tool_calls@) =~= tool_calls(before).update(
                        i as int,
                        ToolCall { input: Some(preview@), ..tool_calls(before)[i as int] },
                    ));
                }
                self.current_tool_input = None;
                StreamAction::Idle
            },
            StreamEvent::ToolExecutionResult { name, result_preview, is_error } => {
                if let Some(i) = self.find_running(name.as_str()) {
                    let ghost before = self.tool_calls@;
                    let ghost output = result_preview@;
                    self.tool_calls[i].2 = Some(result_preview);
                    self.tool_calls[i].3 = false;
                    self.tool_calls[i].4 = is_error;
                    assert(tool_calls(self.tool_calls@) =~= tool_calls(before).update(
                        i as int,
                        ToolCall {
                            output: Some(output),
                            loading: false,
                            failed: is_error,
                            ..tool_calls(before)[i as int]
                        },
                    ));
                }
                if self.last_event_id.is_some() {
                    StreamAction::Refresh
                } else {
                    StreamAction::Idle
                }
            },
            StreamEvent::ContentComplete => StreamAction::Finish,
            StreamEvent::PhaseChange { .. } => StreamAction::Idle,
            StreamEvent::Other => StreamAction::Idle,
        }
    }
}

/// What changes a reply: something happens at a time, or the reply is shown.
pub enum Move {
    Event(EventView, int),
    Shown(StreamAction, Option<Seq<char>>),
}

impl StreamView {
    /// The reply after the move `m`.
    pub open spec fn after(self, m: Move) -> StreamView {
        match m {
            Move::Event(e, now_ns) => self.step(e, now_ns).0,
            Move::Shown(action, sent) => self.shown(action, sent),
        }
    }
}

/// The reply after the `moves`.
pub open spec fn run(s: StreamView, moves: Seq<Move>) -> StreamView
    decreases moves.len(),
{
    if moves.len() == 0 {
        s
    } else {
        run(s, moves.drop_last()).after(moves.last())
    }
}

/// All the text that the `moves` bring.
pub open spec fn all_text(moves: Seq<Move>) -> Seq<char>
    decreases moves.len(),
{
    if moves.len() == 0 {
        seq![]
    } else {
        all_text(moves.drop_last()) + match moves.last() {
            Move::Event(EventView::TextDelta(text), _) => text,
            _ => seq![],
        }
    }
}

/// No text is lost or repeated: the reply holds all the text that came, in
/// order.
pub proof fn law_reply_holds_all_text(s: StreamView, moves: Seq<Move>)
    ensures
        run(s, moves).accumulated == s.accumulated + all_text(moves),
    decreases moves.len(),
{
    if moves.len() == 0 {
        assert(s.accumulated + all_text(moves) =~= s.accumulated);
    } else {
        law_reply_holds_all_text(s, moves.drop_last());
        assert(run(s, moves).accumulated =~= s.accumulated + all_text(moves));
    }
}

/// Once an event shows the reply, that event is edited whatever happens, and
/// no second message is sent.
pub proof fn law_shown_event_is_edited(
    s: StreamView,
    moves: Seq<Move>,
    content_html: Seq<char>,
)
    requires
        s.last_event_id is Some,
    ensures
        run(s, moves).update(content_html) matches UpdateView::Edit { event_id, .. } && event_id
            == s.last_event_id->0,
    decreases moves.len(),
{
    if moves.len() > 0 {
        law_shown_event_is_edited(s, moves.drop_last(), content_html);
    }
}

/// As long as no event shows the reply, it is sent as HTML with its plain text
/// beside it, where that fits in one piece.
pub proof fn law_new_reply_is_sent_as_html(
    s: StreamView,
    content_html: Seq<char>,
    chunk: Seq<char>,
)
    requires
        s.last_event_id is None,
        encode_utf8(s.html(content_html)).len() <= MAX_MESSAGE_LEN * 2,
    ensures
        s.update(content_html) matches UpdateView::New(message) && message.bodies(seq![chunk])
            == seq![
            html_body(fallback(s.plain(content_html), s.html(content_html)), s.html(content_html)),
        ],
{
}

/// A call is running exactly as long as it has no output.
pub open spec fn settled(tools: Seq<ToolCall>) -> bool {
    forall|i: int|
        0 <= i < tools.len() ==> (#[trigger] tools[i]).loading == (tools[i].output is None)
}

proof fn lemma_running_index(tools: Seq<ToolCall>, name: Seq<char>)
    ensures
        running_index(tools, name) matches Some(i) ==> first_running(tools, name, i),
{
    if exists|i: int| first_running(tools, name, i) {
        let i = choose|i: int| first_running(tools, name, i);
        assert(first_running(tools, name, i));
    }
}

proof fn lemma_move_tools(s: StreamView, m: Move)
    requires
        settled(s.tools),
    ensures
        settled(s.after(m).tools),
        s.after(m).tools.len() >= s.tools.len(),
        forall|i: int|
            0 <= i < s.tools.len() && s.tools[i].output is Some ==> #[trigger] s.after(m).tools[i]
                == s.tools[i],
{
    match m {
        Move::Event(EventView::ToolUseEnd { name, .. }, _) => {
            lemma_running_index(s.tools, name);
        },
        Move::Event(EventView::ToolExecutionResult { name, .. }, _) => {
            lemma_running_index(s.tools, name);
        },
        _ => {},
    }
}

/// Whatever happens, a tool call is running exactly as long as it has no
/// output, and once it has one nothing about it changes.
pub proof fn law_ended_calls_stay(s: StreamView, moves: Seq<Move>)
    requires
        settled(s.tools),
    ensures
        settled(run(s, moves).tools),
        run(s, moves).tools.len() >= s.tools.len(),
        forall|i: int|
            0 <= i < s.tools.len() && s.tools[i].output is Some ==> #[trigger] run(
                s,
                moves,
            ).tools[i] == s.tools[i],
    decreases moves.len(),
{
    if moves.len() > 0 {
        let before = run(s, moves.drop_last());
        law_ended_calls_stay(s, moves.drop_last());
        lemma_move_tools(before, moves.last());
        assert forall|i: int| 0 <= i < s.tools.len() && s.tools[i].output is Some implies (
        #[trigger] run(s, moves).tools[i]) == s.tools[i] by {
            assert(before.tools[i] == s.tools[i]);
            assert(before.after(moves.last()).tools[i] == before.tools[i]);
        }
    }
}

/// New text is shown only if it is long enough and the last time is long
/// enough ago; the count then starts anew. Nothing else moves the count.
pub proof fn law_edits_for_text_are_spaced(s: StreamView, e: EventView, now_ns: int)
    ensures
        ({
            let (t, action) = s.step(e, now_ns);
            let shown = e is TextDelta && action == StreamAction::Refresh;
            &&& shown ==> {
                &&& elapsed_ms(s.last_edit_ns, now_ns) > EDIT_INTERVAL_MS
                &&& t.accumulated.len() >= s.last_edit_len + MIN_EDIT_CHARS
                &&& t.last_edit_ns == now_ns
                &&& t.last_edit_len == t.accumulated.len()
            }
            &&& !shown ==> t.last_edit_ns == s.last_edit_ns && t.last_edit_len == s.last_edit_len
        }),
{
}

/// The tool calls come before the text, in HTML as in plain text.
pub proof fn law_tool_calls_come_first(s: StreamView, content_html: Seq<char>)
    ensures
        tool_calls_html(s.tools).is_prefix_of(s.html(content_html)),
        s.html(content_html).skip(tool_calls_html(s.tools).len() as int) == content_html,
        stripped(tool_calls_html(s.tools)).is_prefix_of(s.plain(content_html)),
{
    let tools = tool_calls_html(s.tools);
    assert((tools + content_html).take(tools.len() as int) =~= tools);
    assert((tools + content_html).skip(tools.len() as int) =~= content_html);
    let plain = stripped(tools);
    assert((plain + stripped(content_html)).take(plain.len() as int) =~= plain);
}

/// One turn of a stream: what happened, when, and how showing the reply went,
/// if it was to be shown: by the new message with the event `sent` if it took
/// one, or it failed.
pub struct Turn {
    pub event: EventView,
    pub now_ns: int,
    pub failed: bool,
    pub sent: Option<Seq<char>>,
}

/// The reply after the `turns`, which end at the first failure that counts,
/// and whether there was one.
pub open spec fn stream(s: StreamView, turns: Seq<Turn>) -> (StreamView, bool)
    decreases turns.len(),
{
    if turns.len() == 0 {
        (s, false)
    } else {
        let turn = turns[0];
        let (t, action) = s.step(turn.event, turn.now_ns);
        if action == StreamAction::Idle {
            stream(t, turns.skip(1))
        } else if !turn.failed {
            stream(t.shown(action, turn.sent), turns.skip(1))
        } else if failure_ends(action) {
            (t, true)
        } else {
            stream(t, turns.skip(1))
        }
    }
}

/// A stream ends with an error exactly if showing a complete reply failed;
/// without a complete reply it never does.
pub proof fn law_only_complete_replies_can_fail(s: StreamView, turns: Seq<Turn>)
    ensures
        stream(s, turns).1 <==> exists|i: int|
            0 <= i < turns.len() && (#[trigger] turns[i]).event is ContentComplete
                && turns[i].failed,
    decreases turns.len(),
{
    if turns.len() > 0 {
        let turn = turns[0];
        let rest = turns.skip(1);
        let (t, action) = s.step(turn.event, turn.now_ns);
        assert(action == StreamAction::Finish <==> turn.event is ContentComplete);
        law_only_complete_replies_can_fail(t, rest);
        law_only_complete_replies_can_fail(t.shown(action, turn.sent), rest);
        if turn.event is ContentComplete && turn.failed {
            assert(turns[0].failed);
        } else {
            assert forall|i: int|
                0 <= i < turns.len() && (#[trigger] turns[i]).event is ContentComplete
                    && turns[i].failed implies exists|j: int|
                0 <= j < rest.len() && (#[trigger] rest[j]).event is ContentComplete
                    && rest[j].failed by {
                assert(rest[i - 1] == turns[i]);
            }
            assert forall|j: int|
                0 <= j < rest.len() && (#[trigger] rest[j]).event is ContentComplete
                    && rest[j].failed implies exists|i: int|
                0 <= i < turns.len() && (#[trigger] turns[i]).event is ContentComplete
                    && turns[i].failed by {
                assert(turns[j + 1] == rest[j]);
            }
        }
    }
}

/// Only text, the start or the end of a tool call, and the complete reply ask
/// for the reply to be shown, and only the complete reply asks for it as such.
pub proof fn law_what_asks_for_showing(s: StreamView, e: EventView, now_ns: int)
    ensures
        s.step(e, now_ns).1 == StreamAction::Finish <==> e is ContentComplete,
        s.step(e, now_ns).1 == StreamAction::Refresh ==> e is TextDelta || e is ToolUseStart || e
            is ToolExecutionResult,
{
}

/// New text is shown whenever more than half a second has passed in full
/// milliseconds since text was last shown and at least fifty characters came
/// since, whether or not an event shows the reply already; otherwise it is
/// only kept. Nothing but the text and the count changes.
pub proof fn law_text_is_shown_when_due(s: StreamView, text: Seq<char>, now_ns: int)
    ensures
        ({
            let (t, action) = s.step(EventView::TextDelta(text), now_ns);
            let due = now_ns - s.last_edit_ns >= 501_000_000 && s.accumulated.len() + text.len()
                - s.last_edit_len >= 50;
            &&& action == if due {
                StreamAction::Refresh
            } else {
                StreamAction::Idle
            }
            &&& t == (StreamView {
                accumulated: s.accumulated + text,
                last_event_id: s.last_event_id,
                last_edit_len: if due {
                    (s.accumulated.len() + text.len()) as int
                } else {
                    s.last_edit_len
                },
                last_edit_ns: if due {
                    now_ns
                } else {
                    s.last_edit_ns
                },
                tools: s.tools,
                current_tool_input: s.current_tool_input,
            })
        }),
{
}

/// The first piece of text need not wait: within the first instant of a reply
/// fifty characters are shown, if the clock began ten seconds before.
pub proof fn law_first_text_need_not_wait(start_ns: int, text: Seq<char>, now_ns: int)
    requires
        start_ns >= 10_000_000_000,
        now_ns >= start_ns,
    ensures
        StreamView::fresh(start_ns).step(EventView::TextDelta(text), now_ns).1 == if text.len()
            >= 50 {
            StreamAction::Refresh
        } else {
            StreamAction::Idle
        },
        StreamView::fresh(start_ns).accumulated.len() == 0,
        StreamView::fresh(start_ns).tools.len() == 0,
        StreamView::fresh(start_ns).last_event_id is None,
        StreamView::fresh(start_ns).current_tool_input is None,
{
}

/// The start of a tool call adds that call behind the others, running and with
/// nothing known of it, and always asks for the reply to be shown.
pub proof fn law_started_call_is_added(s: StreamView, name: Seq<char>, now_ns: int)
    ensures
        ({
            let (t, action) = s.step(EventView::ToolUseStart(name), now_ns);
            &&& action == StreamAction::Refresh
            &&& t.tools.len() == s.tools.len() + 1
            &&& forall|i: int| 0 <= i < s.tools.len() ==> #[trigger] t.tools[i] == s.tools[i]
            &&& t.tools.last().name == name
            &&& t.tools.last().input is None
            &&& t.tools.last().output is None
            &&& t.tools.last().loading
            &&& !t.tools.last().failed
            &&& t.current_tool_input == Some(Seq::<char>::empty())
            &&& t.accumulated == s.accumulated
            &&& t.last_event_id == s.last_event_id
            &&& t.last_edit_len == s.last_edit_len
            &&& t.last_edit_ns == s.last_edit_ns
        }),
{
}

/// A piece of input is added to the input of the tool that is about to be
/// called, and to nothing else.
pub proof fn law_input_is_gathered(s: StreamView, text: Seq<char>, now_ns: int)
    ensures
        ({
            let (t, action) = s.step(EventView::ToolInputDelta(text), now_ns);
            &&& action == StreamAction::Idle
            &&& s.current_tool_input matches Some(input) ==> t.current_tool_input == Some(
                input + text,
            )
            &&& s.current_tool_input is None ==> t.current_tool_input is None
            &&& t.tools == s.tools
            &&& t.accumulated == s.accumulated
            &&& t.last_event_id == s.last_event_id
            &&& t.last_edit_len == s.last_edit_len
            &&& t.last_edit_ns == s.last_edit_ns
        }),
{
}

/// The input and the output of a tool go to the first call of that tool that
/// is still running, and change nothing else about it or about any other call.
pub proof fn law_first_running_call_is_filled(
    s: StreamView,
    name: Seq<char>,
    i: int,
    input: Seq<char>,
    output: Seq<char>,
    failed: bool,
    now_ns: int,
)
    requires
        0 <= i < s.tools.len(),
        s.tools[i].name == name,
        s.tools[i].loading,
        forall|j: int|
            0 <= j < i ==> (#[trigger] s.tools[j]).name != name || !s.tools[j].loading,
    ensures
        ({
            let e = EventView::ToolUseEnd { name, input };
            let (t, action) = s.step(e, now_ns);
            &&& action == StreamAction::Idle
            &&& t.tools.len() == s.tools.len()
            &&& t.tools[i] == (ToolCall {
                name,
                input: Some(input),
                output: s.tools[i].output,
                loading: true,
                failed: s.tools[i].failed,
            })
            &&& forall|j: int|
                0 <= j < s.tools.len() && j != i ==> #[trigger] t.tools[j] == s.tools[j]
            &&& t.current_tool_input is None
        }),
        ({
            let e = EventView::ToolExecutionResult {
                name,
                result_preview: output,
                is_error: failed,
            };
            let (t, action) = s.step(e, now_ns);
            &&& t.tools.len() == s.tools.len()
            &&& t.tools[i] == (ToolCall {
                name,
                input: s.tools[i].input,
                output: Some(output),
                loading: false,
                failed,
            })
            &&& forall|j: int|
                0 <= j < s.tools.len() && j != i ==> #[trigger] t.tools[j] == s.tools[j]
            &&& t.current_tool_input == s.current_tool_input
        }),
{
    assert(first_running(s.tools, name, i));
    lemma_running_index(s.tools, name);
    let k = running_index(s.tools, name)->0;
    assert(k == i) by {
        if k < i {
            assert(!is_running(s.tools[k], name));
        } else if k > i {
            assert(!is_running(s.tools[i], name));
        }
    }
}

/// The end of a call, or of its input, never touches the text or the event
/// that shows the reply; where no call of that tool is running it touches no
/// call either. The end of a call asks for the reply to be shown exactly if an
/// event shows it already.
pub proof fn law_ends_of_calls_touch_only_calls(
    s: StreamView,
    name: Seq<char>,
    input: Seq<char>,
    output: Seq<char>,
    failed: bool,
    now_ns: int,
)
    ensures
        ({
            let e = EventView::ToolUseEnd { name, input };
            let (t, action) = s.step(e, now_ns);
            &&& action == StreamAction::Idle
            &&& t.accumulated == s.accumulated
            &&& t.last_event_id == s.last_event_id
            &&& t.last_edit_len == s.last_edit_len
            &&& t.last_edit_ns == s.last_edit_ns
            &&& (forall|j: int|
                0 <= j < s.tools.len() ==> (#[trigger] s.tools[j]).name != name
                    || !s.tools[j].loading) ==> t.tools == s.tools
        }),
        ({
            let e = EventView::ToolExecutionResult {
                name,
                result_preview: output,
                is_error: failed,
            };
            let (t, action) = s.step(e, now_ns);
            &&& action == if s.last_event_id is Some {
                StreamAction::Refresh
            } else {
                StreamAction::Idle
            }
            &&& t.accumulated == s.accumulated
            &&& t.last_event_id == s.last_event_id
            &&& t.last_edit_len == s.last_edit_len
            &&& t.last_edit_ns == s.last_edit_ns
            &&& (forall|j: int|
                0 <= j < s.tools.len() ==> (#[trigger] s.tools[j]).name != name
                    || !s.tools[j].loading) ==> t.tools == s.tools
        }),
{
    lemma_running_index(s.tools, name);
}

/// The complete reply, and what goes unnoticed, change nothing.
pub proof fn law_completion_changes_nothing(s: StreamView, now_ns: int)
    ensures
        s.step(EventView::ContentComplete, now_ns) == (s, StreamAction::Finish),
        s.step(EventView::Unnoticed, now_ns) == (s, StreamAction::Idle),
{
}

/// The reply is shown in full: by an edit of the event that shows it, or by a
/// new HTML message, either time with the tool calls and all of the text, in
/// HTML and without tags.
pub proof fn law_reply_is_shown_in_full(s: StreamView, content_html: Seq<char>)
    ensures
        s.last_event_id is Some <==> s.update(content_html) is Edit,
        s.update(content_html) matches UpdateView::Edit { event_id, plain, html } ==> {
            &&& s.last_event_id == Some(event_id)
            &&& html == tool_calls_html(s.tools) + content_html
            &&& plain == stripped(tool_calls_html(s.tools)) + stripped(content_html)
        },
        s.update(content_html) matches UpdateView::New(message) ==> message == (
        OutgoingView::Html {
            plain: stripped(tool_calls_html(s.tools)) + stripped(content_html),
            html: tool_calls_html(s.tools) + content_html,
        }),
{
}

/// The first message that shows the reply while it is written shows it from
/// then on. The message with the complete reply does not, nor one without an
/// event, and once an event shows the reply no other takes its place.
pub proof fn law_first_message_shows_the_reply(
    s: StreamView,
    action: StreamAction,
    sent: Option<Seq<char>>,
)
    ensures
        s.last_event_id is Some ==> s.shown(action, sent) == s,
        action != StreamAction::Refresh ==> s.shown(action, sent) == s,
        sent is None ==> s.shown(action, sent) == s,
        sent == Some(Seq::<char>::empty()) ==> s.shown(action, sent) == s,
        sent is Some && s.last_event_id is None && action == StreamAction::Refresh
            && sent->0.len() > 0 ==> s.shown(action, sent) == (StreamView {
            last_event_id: sent,
            ..s
        }),
{
}

/// The input of a tool is shown as its JSON text, if there is one that says
/// something; else as `fallback`, and where that is empty too, as a remark that
/// there are no parameters.
pub proof fn law_input_is_shown_as_json(serialized: Option<Seq<char>>, fallback: Seq<char>)
    ensures
        serialized is Some && serialized->0.len() > 0 && serialized->0 != "null"@
            ==> chosen_input(serialized, fallback) == serialized->0,
        (serialized is None || serialized == Some("null"@) || serialized == Some(
            Seq::<char>::empty(),
        )) ==> chosen_input(serialized, fallback) == if fallback.len() > 0 {
            fallback
        } else {
            "(无参数)"@
        },
{
}

/// An event is seen with all that it says.
pub proof fn law_events_are_seen_in_full(e: StreamEvent)
    ensures
        e matches StreamEvent::TextDelta { text } ==> e@ == EventView::TextDelta(text@),
        e matches StreamEvent::ToolUseStart { name } ==> e@ == EventView::ToolUseStart(name@),
        e matches StreamEvent::ToolInputDelta { text } ==> e@ == EventView::ToolInputDelta(text@),
        e matches StreamEvent::ToolUseEnd { name, input } ==> e@ == (EventView::ToolUseEnd {
            name: name@,
            input: if compact_json(input).len() > 0 {
                compact_json(input)
            } else {
                "(无参数)"@
            },
        }),
        e matches StreamEvent::ToolExecutionResult { name, result_preview, is_error } ==> e@ == (
        EventView::ToolExecutionResult {
            name: name@,
            result_preview: result_preview@,
            is_error,
        }),
        e is ContentComplete ==> e@ is ContentComplete,
        e is PhaseChange || e is Other ==> e@ is Unnoticed,
{
}

/// An update is seen with all that it shows.
pub proof fn law_updates_are_seen_in_full(u: StreamUpdate)
    ensures
        u matches StreamUpdate::Edit { event_id, plain, html } ==> u@ == (UpdateView::Edit {
            event_id: event_id@,
            plain: plain@,
            html: html@,
        }),
        u matches StreamUpdate::New(message) ==> u@ == UpdateView::New(message@),
{
}

} // verus!
