//! Tool calls shown in a message: short previews of what went into each call
//! and what came out.

use crate::html::{escape_html, escaped};
use crate::text::{
    chars_of, copy_range, decimal, decimal_of, has_text, law_lines_end_at_line_feeds,
    law_text_is_found_where_it_stands, lines, opt_text, push_all, rows, same_text, split_lines,
    string_of, without_return,
};
use vstd::prelude::*;
use vstd::string::StringExecFns;

verus! {

/// How many lines of a tool's input or output are shown.
pub const MAX_PREVIEW_LINES: usize = 3;

/// How many characters of a tool's input are shown.
pub const MAX_INPUT_CHARS: usize = 128;

/// How many characters of a tool's output are shown.
pub const MAX_OUTPUT_CHARS: usize = 256;

/// The heading over the tool calls.
pub const TOOL_CALLS_HEADER: &'static str = "🔧 工具调用";

/// What stands over the input of a call.
pub const INPUT_LABEL: &'static str = "📥 输入";

/// What stands over the output of a call.
pub const OUTPUT_LABEL: &'static str = "✅ 输出";

/// What stands over the output of a call that failed.
pub const ERROR_LABEL: &'static str = "❌ 错误";

/// What is shown in place of an empty input.
pub const NO_PARAMS: &'static str = "(无参数)";

/// What every line of a preview starts with.
pub const INDENT_PREFIX: &'static str = "　　";

/// The icon of the tool called `name`.
pub open spec fn icon_of(name: Seq<char>) -> Seq<char> {
    if name == "web_search"@ || name == "web_fetch"@ {
        "🌐"@
    } else if name == "read_file"@ || name == "glob"@ || name == "grep"@ || name
        == "search_file_content"@ {
        "📄"@
    } else if name == "write_file"@ || name == "replace"@ {
        "✏️"@
    } else if name == "run_shell_command"@ || name == "bash"@ {
        "💻"@
    } else if name == "image_generate"@ || name == "image_read"@ {
        "🖼️"@
    } else if name == "web_search_planning"@ {
        "🔍"@
    } else if name == "list_directory"@ {
        "📁"@
    } else if name == "todo_write"@ || name == "todo_read"@ {
        "📋"@
    } else if name == "ask_user_question"@ {
        "❓"@
    } else {
        "🔧"@
    }
}

/// Get icon for a tool based on its name.
pub fn tool_icon(name: &str) -> (r: &'static str)
    ensures
        r@ == icon_of(name@),
{
    if same_text(name, "web_search") || same_text(name, "web_fetch") {
        "🌐"
    } else if same_text(name, "read_file") || same_text(name, "glob") || same_text(name, "grep")
        || same_text(name, "search_file_content") {
        "📄"
    } else if same_text(name, "write_file") || same_text(name, "replace") {
        "✏️"
    } else if same_text(name, "run_shell_command") || same_text(name, "bash") {
        "💻"
    } else if same_text(name, "image_generate") || same_text(name, "image_read") {
        "🖼️"
    } else if same_text(name, "web_search_planning") {
        "🔍"
    } else if same_text(name, "list_directory") {
        "📁"
    } else if same_text(name, "todo_write") || same_text(name, "todo_read") {
        "📋"
    } else if same_text(name, "ask_user_question") {
        "❓"
    } else {
        "🔧"
    }
}

/// The lines of `ls` joined by line feeds; empty lines at the start are left
/// out.
pub open spec fn joined_lines(ls: Seq<Seq<char>>) -> Seq<char>
    decreases ls.len(),
{
    if ls.len() == 0 {
        seq![]
    } else {
        let head = joined_lines(ls.drop_last());
        if head.len() == 0 {
            ls.last()
        } else {
            head.push('\n') + ls.last()
        }
    }
}

/// The first `n` elements of `s`, or all of them if there are fewer.
pub open spec fn at_most<A>(s: Seq<A>, n: nat) -> Seq<A> {
    if s.len() <= n {
        s
    } else {
        s.take(n as int)
    }
}

/// The first `max_lines` lines of `text`, cut to `max_chars` characters.
pub open spec fn clipped(text: Seq<char>, max_lines: nat, max_chars: nat) -> Seq<char> {
    at_most(joined_lines(at_most(lines(text), max_lines)), max_chars)
}

/// What is shown of `text`: its clipping, and an ellipsis where `text` is
/// longer than either limit or the clipping fills the room there is.
pub open spec fn truncated(text: Seq<char>, max_lines: nat, max_chars: nat) -> Seq<char> {
    let shown = clipped(text, max_lines, max_chars);
    if lines(text).len() > max_lines || text.len() > max_chars || shown.len() >= max_chars {
        shown + "..."@
    } else {
        shown
    }
}

/// What is joined of the first lines stays at the start when more follow.
proof fn lemma_joined_prefix(ls: Seq<Seq<char>>, n: int)
    requires
        0 <= n <= ls.len(),
    ensures
        joined_lines(ls.take(n)).len() <= joined_lines(ls).len(),
        joined_lines(ls).take(joined_lines(ls.take(n)).len() as int) == joined_lines(ls.take(n)),
    decreases ls.len(),
{
    if n == ls.len() {
        assert(ls.take(n) =~= ls);
        assert(joined_lines(ls).take(joined_lines(ls).len() as int) =~= joined_lines(ls));
    } else {
        lemma_joined_prefix(ls.drop_last(), n);
        assert(ls.drop_last().take(n) =~= ls.take(n));
        let head = joined_lines(ls.drop_last());
        let part = joined_lines(ls.take(n));
        assert(joined_lines(ls).take(part.len() as int) =~= head.take(part.len() as int));
    }
}

fn clip_lines(list: &Vec<Vec<char>>, n: usize, max_chars: usize) -> (r: Vec<char>)
    requires
        n <= list@.len(),
    ensures
        r@ == at_most(joined_lines(rows(list@).take(n as int)), max_chars as nat),
{
    let ghost ls = rows(list@).take(n as int);
    let mut result: Vec<char> = Vec::new();
    assert(ls.take(0) =~= Seq::<Seq<char>>::empty());
    for i in 0..n
        invariant
            n <= list@.len(),
            ls == rows(list@).take(n as int),
            result@ == joined_lines(ls.take(i as int)),
            result@.len() <= max_chars,
    {
        proof {
            lemma_joined_prefix(ls, i as int);
            lemma_joined_prefix(ls, i as int + 1);
            assert(ls.take(i as int + 1).drop_last() =~= ls.take(i as int));
            assert(ls[i as int] == list@[i as int]@);
        }
        if result.len() >= max_chars {
            assert(joined_lines(ls).take(max_chars as int) == result@);
            assert(at_most(joined_lines(ls), max_chars as nat) =~= result@);
            return result;
        }
        let ghost before = result@;
        if result.len() > 0 {
            result.push('\n');
        }
        let remaining: usize = max_chars - result.len();
        let line = &list[i];
        let ghost whole = joined_lines(ls.take(i as int + 1));
        assert(whole =~= result@ + line@);
        if line.len() > remaining {
            let ghost joined = result@;
            let cut = copy_range(line.as_slice(), 0, remaining);
            push_all(&mut result, cut.as_slice());
            proof {
                assert(whole.take(max_chars as int) =~= result@);
                assert(joined_lines(ls).take(whole.len() as int).take(max_chars as int)
                    =~= joined_lines(ls).take(max_chars as int));
            }
            return result;
        }
        push_all(&mut result, line.as_slice());
    }
    assert(ls.take(n as int) =~= ls);
    result
}

/// Truncate text to max lines and max characters.
pub fn truncate_text(text: &str, max_lines: usize, max_chars: usize) -> (r: String)
    ensures
        r@ == truncated(text@, max_lines as nat, max_chars as nat),
{
    let chars = chars_of(text);
    let list = split_lines(chars.as_slice());
    let n: usize = if list.len() < max_lines {
        list.len()
    } else {
        max_lines
    };
    let result = clip_lines(&list, n, max_chars);
    proof {
        assert(rows(list@).len() == list@.len());
        assert(rows(list@).take(n as int) =~= at_most(lines(text@), max_lines as nat));
    }
    let needs_ellipsis = list.len() > max_lines || chars.len() > max_chars || result.len()
        >= max_chars;
    let mut out = string_of(result.as_slice());
    if needs_ellipsis {
        out.append("...");
    }
    out
}

/// Tool call info for formatting: the tool's name, its input, its output,
/// whether the call is still running, and whether it failed.
pub type ToolCallInfo = (String, Option<String>, Option<String>, bool, bool);

/// A tool call as the specifications see it.
pub struct ToolCall {
    pub name: Seq<char>,
    pub input: Option<Seq<char>>,
    pub output: Option<Seq<char>>,
    pub loading: bool,
    pub failed: bool,
}

/// The tool call that `t` describes.
pub open spec fn tool_call(t: ToolCallInfo) -> ToolCall {
    ToolCall {
        name: t.0@,
        input: opt_text(t.1),
        output: opt_text(t.2),
        loading: t.3,
        failed: t.4,
    }
}

/// The tool calls that `list` describes.
pub open spec fn tool_calls(list: Seq<ToolCallInfo>) -> Seq<ToolCall> {
    list.map_values(|t: ToolCallInfo| tool_call(t))
}

/// The calls of `calls` that have an output.
pub open spec fn completed(calls: Seq<ToolCall>) -> Seq<ToolCall> {
    calls.filter(|t: ToolCall| t.output is Some)
}

/// The lines of `ls`, each escaped and indented, joined by line breaks.
pub open spec fn indented(ls: Seq<Seq<char>>) -> Seq<char>
    decreases ls.len(),
{
    if ls.len() == 0 {
        seq![]
    } else if ls.len() == 1 {
        INDENT_PREFIX@ + escaped(ls[0])
    } else {
        indented(ls.drop_last()) + "<br/>"@ + INDENT_PREFIX@ + escaped(ls.last())
    }
}

/// The lines that are shown of `text`, in HTML.
pub open spec fn preview(text: Seq<char>, max_chars: nat) -> Seq<char> {
    indented(lines(truncated(text, MAX_PREVIEW_LINES as nat, max_chars)))
}

/// The section of a tool call that shows its input.
pub open spec fn input_section(input: Option<Seq<char>>) -> Seq<char> {
    match input {
        Some(text) => "<br/><br/><blockquote>"@ + INPUT_LABEL@ + "<br/><code>"@ + preview(
            text,
            MAX_INPUT_CHARS as nat,
        ) + "</code></blockquote>"@,
        None => seq![],
    }
}

/// The section of a tool call that shows its output.
pub open spec fn output_section(output: Option<Seq<char>>, failed: bool) -> Seq<char> {
    match output {
        Some(text) => "<blockquote>"@ + (if failed {
            ERROR_LABEL@
        } else {
            seq![]
        }) + " "@ + (if failed {
            ERROR_LABEL@
        } else {
            OUTPUT_LABEL@
        }) + "<br/><code>"@ + preview(text, MAX_OUTPUT_CHARS as nat) + "</code></blockquote>"@,
        None => seq![],
    }
}

/// The entry of the `number`th completed tool call.
pub open spec fn tool_entry(number: nat, t: ToolCall) -> Seq<char> {
    "<blockquote>"@ + decimal(number) + ". "@ + icon_of(t.name) + " <b>"@ + t.name + "</b>"@
        + input_section(t.input) + output_section(t.output, t.failed) + "</blockquote>"@
}

/// The entries of the completed tool calls `done`, numbered from one.
pub open spec fn tool_entries(done: Seq<ToolCall>) -> Seq<char>
    decreases done.len(),
{
    if done.len() == 0 {
        seq![]
    } else {
        tool_entries(done.drop_last()) + tool_entry(done.len(), done.last())
    }
}

/// The tool calls in HTML: a header with their number, then their entries, of
/// those that are completed; nothing if none is.
pub open spec fn tool_calls_html(calls: Seq<ToolCall>) -> Seq<char> {
    let done = completed(calls);
    if done.len() == 0 {
        seq![]
    } else {
        "<b>"@ + TOOL_CALLS_HEADER@ + " ("@ + decimal(done.len()) + ")</b><br/>"@ + tool_entries(done)
            + "<br/>"@
    }
}

fn preview_html(text: &str, max_chars: usize) -> (r: String)
    ensures
        r@ == preview(text@, max_chars as nat),
{
    let shown = truncate_text(text, MAX_PREVIEW_LINES, max_chars);
    let list = split_lines(chars_of(shown.as_str()).as_slice());
    let ghost ls = rows(list@);
    let mut out = String::new();
    for i in 0..list.len()
        invariant
            ls == rows(list@),
            out@ == indented(ls.take(i as int)),
    {
        let ghost before = out@;
        let line = escape_html(string_of(list[i].as_slice()).as_str());
        if i > 0 {
            out.append("<br/>");
        }
        out.append(INDENT_PREFIX);
        out.append(line.as_str());
        proof {
            let now = ls.take(i as int + 1);
            assert(now.drop_last() =~= ls.take(i as int));
            assert(now.last() == list@[i as int]@);
            if i == 0 {
                assert(out@ =~= INDENT_PREFIX@ + escaped(now[0]));
            } else {
                assert(out@ =~= before + "<br/>"@ + INDENT_PREFIX@ + escaped(now.last()));
            }
        }
    }
    assert(ls.take(list@.len() as int) =~= ls);
    out
}

fn input_html(input: &Option<String>) -> (r: String)
    ensures
        r@ == input_section(opt_text(*input)),
{
    let mut html = String::new();
    if let Some(text) = input {
        html.append("<br/><br/><blockquote>");
        html.append(INPUT_LABEL);
        html.append("<br/><code>");
        html.append(preview_html(text.as_str(), MAX_INPUT_CHARS).as_str());
        html.append("</code></blockquote>");
        assert(html@ =~= input_section(opt_text(*input)));
    }
    html
}

fn output_html(output: &Option<String>, is_error: bool) -> (r: String)
    ensures
        r@ == output_section(opt_text(*output), is_error),
{
    let mut html = String::new();
    if let Some(text) = output {
        let status_icon = if is_error {
            ERROR_LABEL
        } else {
            ""
        };
        let label = if is_error {
            ERROR_LABEL
        } else {
            OUTPUT_LABEL
        };
        proof {
            reveal_strlit("");
        }
        html.append("<blockquote>");
        html.append(status_icon);
        html.append(" ");
        html.append(label);
        html.append("<br/><code>");
        html.append(preview_html(text.as_str(), MAX_OUTPUT_CHARS).as_str());
        html.append("</code></blockquote>");
        assert(html@ =~= output_section(opt_text(*output), is_error));
    }
    html
}

fn entry_html(number: u64, tool: &ToolCallInfo) -> (r: String)
    ensures
        r@ == tool_entry(number as nat, tool_call(*tool)),
{
    let mut html = String::new();
    html.append("<blockquote>");
    html.append(decimal_of(number).as_str());
    html.append(". ");
    html.append(tool_icon(tool.0.as_str()));
    html.append(" <b>");
    html.append(tool.0.as_str());
    html.append("</b>");
    html.append(input_html(&tool.1).as_str());
    html.append(output_html(&tool.2, tool.4).as_str());
    html.append("</blockquote>");
    assert(html@ =~= tool_entry(number as nat, tool_call(*tool)));
    html
}

/// How `completed` grows from one prefix of `calls` to the next.
proof fn lemma_completed_step(calls: Seq<ToolCall>, i: int)
    requires
        0 <= i < calls.len(),
    ensures
        completed(calls.take(i + 1)) == if calls[i].output is Some {
            completed(calls.take(i)).push(calls[i])
        } else {
            completed(calls.take(i))
        },
        completed(calls.take(i)).len() <= i,
    decreases i,
{
    reveal(Seq::filter);
    assert(calls.take(i + 1).drop_last() =~= calls.take(i));
    if i > 0 {
        lemma_completed_step(calls, i - 1);
    } else {
        assert(completed(calls.take(0)).len() == 0);
    }
}

/// Format completed tool calls as HTML.
pub fn format_tool_calls_html(tools: &[ToolCallInfo]) -> (r: String)
    ensures
        r@ == tool_calls_html(tool_calls(tools@)),
{
    let ghost calls = tool_calls(tools@);
    let mut count: usize = 0;
    let mut entries = String::new();
    proof {
        reveal(Seq::filter);
        assert(completed(calls.take(0)) =~= Seq::<ToolCall>::empty());
    }
    for i in 0..tools.len()
        invariant
            calls == tool_calls(tools@),
            count <= i,
            count == completed(calls.take(i as int)).len(),
            entries@ == tool_entries(completed(calls.take(i as int))),
    {
        let tool = &tools[i];
        proof {
            lemma_completed_step(calls, i as int);
            assert(calls[i as int] == tool_call(*tool));
        }
        if tool.2.is_some() {
            count = count + 1;
            entries.append(entry_html(count as u64, tool).as_str());
            proof {
                let done = completed(calls.take(i as int + 1));
                assert(done.drop_last() =~= completed(calls.take(i as int)));
            }
        }
    }
    assert(calls.take(tools@.len() as int) =~= calls);
    if count == 0 {
        return String::new();
    }
    let mut html = String::new();
    html.append("<b>");
    html.append(TOOL_CALLS_HEADER);
    html.append(" (");
    html.append(decimal_of(count as u64).as_str());
    html.append(")</b><br/>");
    html.append(entries.as_str());
    html.append("<br/>");
    assert(html@ =~= tool_calls_html(calls));
    html
}

/// How many line feeds stand in `s`.
spec fn feeds(s: Seq<char>) -> nat
    decreases s.len(),
{
    if s.len() == 0 {
        0
    } else {
        feeds(s.drop_last()) + (if s.last() == '\n' {
            1nat
        } else {
            0nat
        })
    }
}

proof fn lemma_feeds_add(a: Seq<char>, b: Seq<char>)
    ensures
        feeds(a + b) == feeds(a) + feeds(b),
    decreases b.len(),
{
    if b.len() == 0 {
        assert(a + b =~= a);
    } else {
        assert((a + b).drop_last() =~= a + b.drop_last());
        lemma_feeds_add(a, b.drop_last());
    }
}

proof fn lemma_feeds_none(s: Seq<char>)
    requires
        !s.contains('\n'),
    ensures
        feeds(s) == 0,
    decreases s.len(),
{
    if s.len() > 0 {
        assert(s.last() == s[s.len() - 1]);
        assert forall|i: int| 0 <= i < s.drop_last().len() implies s.drop_last()[i] != '\n' by {
            assert(s.drop_last()[i] == s[i]);
        }
        lemma_feeds_none(s.drop_last());
    }
}

proof fn lemma_feeds_take(s: Seq<char>, n: nat)
    ensures
        feeds(at_most(s, n)) <= feeds(s),
{
    if s.len() > n {
        lemma_feeds_add(s.take(n as int), s.skip(n as int));
        assert(s.take(n as int) + s.skip(n as int) =~= s);
    }
}

/// A text has at most one line more than it has line feeds, and no line holds
/// a line feed.
proof fn lemma_lines(s: Seq<char>)
    ensures
        lines(s).len() <= feeds(s) + 1,
        forall|i: int| 0 <= i < lines(s).len() ==> !(#[trigger] lines(s)[i]).contains('\n'),
    decreases s.len(),
{
    s.index_of_first_ensures('\n');
    match s.index_of_first('\n') {
        Some(n) if 0 <= n < s.len() => {
            let rest = s.skip(n + 1);
            lemma_lines(rest);
            assert(s =~= s.take(n + 1) + rest);
            assert(s.take(n + 1).drop_last() =~= s.take(n));
            lemma_feeds_add(s.take(n + 1), rest);
            let first = without_return(s.take(n));
            assert(!first.contains('\n'));
            assert(lines(s) =~= seq![first] + lines(rest));
            assert forall|i: int| 0 <= i < lines(s).len() implies !(
            #[trigger] lines(s)[i]).contains('\n') by {
                if i > 0 {
                    assert(lines(s)[i] == lines(rest)[i - 1]);
                }
            }
        },
        _ => {
            lemma_feeds_none(s);
        },
    }
}

proof fn lemma_feeds_joined(ls: Seq<Seq<char>>)
    requires
        forall|i: int| 0 <= i < ls.len() ==> !(#[trigger] ls[i]).contains('\n'),
    ensures
        feeds(joined_lines(ls)) <= ls.len(),
        ls.len() > 0 ==> feeds(joined_lines(ls)) < ls.len(),
    decreases ls.len(),
{
    if ls.len() > 0 {
        let front = ls.drop_last();
        assert forall|i: int| 0 <= i < front.len() implies !(#[trigger] front[i]).contains(
            '\n',
        ) by {
            assert(front[i] == ls[i]);
        }
        lemma_feeds_joined(front);
        let head = joined_lines(front);
        assert(ls.last() == ls[ls.len() - 1]);
        lemma_feeds_none(ls.last());
        if head.len() > 0 {
            assert(head.push('\n').drop_last() =~= head);
            lemma_feeds_add(head.push('\n'), ls.last());
            assert(front.len() > 0);
        }
    }
}

/// What is shown of a text keeps both limits: it has no more lines than asked
/// for, and no more characters, the ellipsis aside.
pub proof fn law_truncated_limits(text: Seq<char>, max_lines: nat, max_chars: nat)
    requires
        max_lines > 0,
    ensures
        lines(truncated(text, max_lines, max_chars)).len() <= max_lines,
        truncated(text, max_lines, max_chars).len() <= max_chars + 3,
{
    reveal_strlit("...");
    let ls = at_most(lines(text), max_lines);
    lemma_lines(text);
    assert forall|i: int| 0 <= i < ls.len() implies !(#[trigger] ls[i]).contains('\n') by {
        assert(ls[i] == lines(text)[i]);
    }
    lemma_feeds_joined(ls);
    lemma_feeds_take(joined_lines(ls), max_chars);
    let shown = clipped(text, max_lines, max_chars);
    lemma_feeds_add(shown, "..."@);
    assert(!"..."@.contains('\n'));
    lemma_feeds_none("..."@);
    lemma_lines(truncated(text, max_lines, max_chars));
}

/// The lines of `ls`, each after a line feed.
spec fn fed_lines(ls: Seq<Seq<char>>) -> Seq<char>
    decreases ls.len(),
{
    if ls.len() == 0 {
        seq![]
    } else {
        fed_lines(ls.drop_last()).push('\n') + ls.last()
    }
}

proof fn lemma_fed_first(first: Seq<char>, ls: Seq<Seq<char>>)
    ensures
        fed_lines(seq![first] + ls) == seq!['\n'] + first + fed_lines(ls),
    decreases ls.len(),
{
    let all = seq![first] + ls;
    if ls.len() == 0 {
        assert(all.drop_last() =~= Seq::<Seq<char>>::empty());
        assert(fed_lines(all.drop_last()) =~= Seq::<char>::empty());
        assert(fed_lines(all) =~= seq!['\n'] + first + fed_lines(ls));
    } else {
        assert(all.drop_last() =~= seq![first] + ls.drop_last());
        lemma_fed_first(first, ls.drop_last());
        assert(fed_lines(all) =~= seq!['\n'] + first + fed_lines(ls));
    }
}

/// After a first line that is not empty, every line is joined by a line feed.
proof fn lemma_joined_after_first(first: Seq<char>, ls: Seq<Seq<char>>)
    requires
        first.len() > 0,
    ensures
        joined_lines(seq![first] + ls) == first + fed_lines(ls),
    decreases ls.len(),
{
    let all = seq![first] + ls;
    if ls.len() == 0 {
        assert(all.drop_last() =~= Seq::<Seq<char>>::empty());
        assert(joined_lines(all.drop_last()).len() == 0);
        assert(joined_lines(all) =~= first + fed_lines(ls));
    } else {
        assert(all.drop_last() =~= seq![first] + ls.drop_last());
        lemma_joined_after_first(first, ls.drop_last());
        assert(joined_lines(all) =~= first + fed_lines(ls));
    }
}

/// No line of `text` ends with a carriage return and a line feed.
pub open spec fn plain_line_ends(text: Seq<char>) -> bool {
    forall|i: int, j: int|
        #![trigger text[i], text[j]]
        0 <= i < text.len() && j == i + 1 && j < text.len() ==> !(text[i] == '\r' && text[j]
            == '\n')
}

/// A text is its lines again, each after a line feed but the first.
proof fn lemma_lines_fed(text: Seq<char>)
    requires
        text.len() > 0,
        text.last() != '\n',
        plain_line_ends(text),
    ensures
        fed_lines(lines(text)) == seq!['\n'] + text,
    decreases text.len(),
{
    text.index_of_first_ensures('\n');
    match text.index_of_first('\n') {
        Some(n) if 0 <= n < text.len() => {
            let rest = text.skip(n + 1);
            let first = text.take(n);
            assert(text[n] == '\n');
            assert(n < text.len() - 1);
            assert(without_return(first) == first) by {
                if n > 0 {
                    assert(first.last() == text[n - 1]);
                    assert(!(text[n - 1] == '\r' && text[n] == '\n'));
                }
            }
            assert(rest.last() == text.last());
            assert forall|i: int, j: int|
                #![trigger rest[i], rest[j]]
                0 <= i < rest.len() && j == i + 1 && j < rest.len() implies !(rest[i] == '\r'
                && rest[j] == '\n') by {
                assert(rest[i] == text[n + 1 + i] && rest[j] == text[n + 1 + j]);
            }
            lemma_lines_fed(rest);
            lemma_fed_first(first, lines(rest));
            assert(seq!['\n'] + first + (seq!['\n'] + rest) =~= seq!['\n'] + text);
        },
        _ => {
            assert(lines(text) =~= seq![text] + Seq::<Seq<char>>::empty());
            lemma_fed_first(text, Seq::<Seq<char>>::empty());
            assert(seq!['\n'] + text + fed_lines(Seq::<Seq<char>>::empty()) =~= seq!['\n'] + text);
        },
    }
}

/// A text is its lines joined, if it neither starts nor ends with a line feed
/// and its lines end plainly.
proof fn lemma_lines_joined(text: Seq<char>)
    requires
        text.len() > 0 ==> text[0] != '\n' && text.last() != '\n',
        plain_line_ends(text),
    ensures
        joined_lines(lines(text)) == text,
{
    text.index_of_first_ensures('\n');
    if text.len() == 0 {
        assert(joined_lines(lines(text)) =~= text);
    } else {
        lemma_lines_fed(text);
        let all = lines(text);
        let first = all[0];
        let rest = all.skip(1);
        assert(all =~= seq![first] + rest);
        assert(first.len() > 0) by {
            match text.index_of_first('\n') {
                Some(n) if 0 <= n < text.len() => {
                    assert(text[n] == '\n');
                    assert(text.take(n).last() == text[n - 1]);
                    assert(!(text[n - 1] == '\r' && text[n] == '\n'));
                },
                _ => {},
            }
        }
        lemma_fed_first(first, rest);
        lemma_joined_after_first(first, rest);
        let fed = seq!['\n'] + text;
        assert(fed.skip(1) =~= text);
        assert((seq!['\n'] + first + fed_lines(rest)).skip(1) =~= first + fed_lines(rest));
    }
}

/// A text that leaves room is shown as it is: it has no more lines than asked
/// for and fewer characters, starts and ends with no line feed, and none of
/// its line feeds follows a carriage return.
pub proof fn law_short_text_shown_whole(text: Seq<char>, max_lines: nat, max_chars: nat)
    requires
        lines(text).len() <= max_lines,
        text.len() < max_chars,
        text.len() > 0 ==> text[0] != '\n' && text.last() != '\n',
        plain_line_ends(text),
    ensures
        truncated(text, max_lines, max_chars) == text,
{
    lemma_lines_joined(text);
}

/// Each section of a shown tool call has at most `MAX_PREVIEW_LINES` lines,
/// whatever the limit of characters.
pub proof fn law_preview_lines(text: Seq<char>, max_chars: nat)
    ensures
        lines(truncated(text, MAX_PREVIEW_LINES as nat, max_chars)).len() <= MAX_PREVIEW_LINES,
{
    law_truncated_limits(text, MAX_PREVIEW_LINES as nat, max_chars);
}

/// Nothing is shown of the tool calls exactly as long as no call has an output.
pub proof fn law_nothing_shown_iff_nothing_completed(calls: Seq<ToolCall>)
    ensures
        tool_calls_html(calls) == Seq::<char>::empty() <==> forall|i: int|
            0 <= i < calls.len() ==> (#[trigger] calls[i]).output is None,
{
    reveal_strlit("<b>");
    lemma_none_completed(calls);
    if completed(calls).len() > 0 {
        assert(tool_calls_html(calls).len() > 0);
    }
}

proof fn lemma_none_completed(calls: Seq<ToolCall>)
    ensures
        completed(calls).len() == 0 <==> forall|i: int|
            0 <= i < calls.len() ==> (#[trigger] calls[i]).output is None,
    decreases calls.len(),
{
    reveal(Seq::filter);
    if calls.len() > 0 {
        let front = calls.drop_last();
        lemma_none_completed(front);
        assert(calls.last() == calls[calls.len() - 1]);
        assert forall|i: int| 0 <= i < front.len() implies front[i] == calls[i] by {}
        if completed(calls).len() == 0 {
            assert forall|i: int| 0 <= i < calls.len() implies (
            #[trigger] calls[i]).output is None by {
                if i < front.len() {
                    assert(front[i] == calls[i]);
                }
            }
        } else if forall|i: int| 0 <= i < calls.len() ==> (#[trigger] calls[i]).output is None {
            assert forall|i: int| 0 <= i < front.len() implies (
            #[trigger] front[i]).output is None by {
                assert(front[i] == calls[i]);
            }
            assert(calls[calls.len() - 1].output is None);
        }
    }
}

proof fn lemma_completed_twice(calls: Seq<ToolCall>)
    ensures
        completed(completed(calls)) == completed(calls),
    decreases calls.len(),
{
    reveal(Seq::filter);
    if calls.len() > 0 {
        let before = completed(calls.drop_last());
        lemma_completed_twice(calls.drop_last());
        if calls.last().output is Some {
            assert(completed(calls) =~= before.push(calls.last()));
            assert(before.push(calls.last()).drop_last() =~= before);
        }
    }
}

/// What is shown of the tool calls depends on the completed ones alone.
pub proof fn law_only_completed_calls_are_shown(calls: Seq<ToolCall>, others: Seq<ToolCall>)
    ensures
        tool_calls_html(calls) == tool_calls_html(completed(calls)),
        completed(calls) == completed(others) ==> tool_calls_html(calls) == tool_calls_html(others),
{
    lemma_completed_twice(calls);
}

/// Every known tool has the icon of its kind, and every other tool a wrench.
pub proof fn law_icons_show_the_kind_of_tool(name: Seq<char>)
    ensures
        icon_of("web_search"@) == "🌐"@,
        icon_of("web_fetch"@) == "🌐"@,
        icon_of("read_file"@) == "📄"@,
        icon_of("glob"@) == "📄"@,
        icon_of("grep"@) == "📄"@,
        icon_of("search_file_content"@) == "📄"@,
        icon_of("write_file"@) == "✏️"@,
        icon_of("replace"@) == "✏️"@,
        icon_of("run_shell_command"@) == "💻"@,
        icon_of("bash"@) == "💻"@,
        icon_of("image_generate"@) == "🖼️"@,
        icon_of("image_read"@) == "🖼️"@,
        icon_of("web_search_planning"@) == "🔍"@,
        icon_of("list_directory"@) == "📁"@,
        icon_of("todo_write"@) == "📋"@,
        icon_of("todo_read"@) == "📋"@,
        icon_of("ask_user_question"@) == "❓"@,
        ({
            &&& name != "web_search"@
            &&& name != "web_fetch"@
            &&& name != "read_file"@
            &&& name != "glob"@
            &&& name != "grep"@
            &&& name != "search_file_content"@
            &&& name != "write_file"@
            &&& name != "replace"@
            &&& name != "run_shell_command"@
            &&& name != "bash"@
            &&& name != "image_generate"@
            &&& name != "image_read"@
            &&& name != "web_search_planning"@
            &&& name != "list_directory"@
            &&& name != "todo_write"@
            &&& name != "todo_read"@
            &&& name != "ask_user_question"@
        }) ==> icon_of(name) == "🔧"@,
{
    reveal_strlit("web_search");
    assert("web_search"@.len() == 10 && "web_search"@[0] == 'w' && "web_search"@[1] == 'e');
    reveal_strlit("web_fetch");
    assert("web_fetch"@.len() == 9 && "web_fetch"@[0] == 'w' && "web_fetch"@[1] == 'e');
    reveal_strlit("read_file");
    assert("read_file"@.len() == 9 && "read_file"@[0] == 'r' && "read_file"@[1] == 'e');
    reveal_strlit("glob");
    assert("glob"@.len() == 4 && "glob"@[0] == 'g' && "glob"@[1] == 'l');
    reveal_strlit("grep");
    assert("grep"@.len() == 4 && "grep"@[0] == 'g' && "grep"@[1] == 'r');
    reveal_strlit("search_file_content");
    assert("search_file_content"@.len() == 19 && "search_file_content"@[0] == 's' && "search_file_content"@[1] == 'e');
    reveal_strlit("write_file");
    assert("write_file"@.len() == 10 && "write_file"@[0] == 'w' && "write_file"@[1] == 'r');
    reveal_strlit("replace");
    assert("replace"@.len() == 7 && "replace"@[0] == 'r' && "replace"@[1] == 'e');
    reveal_strlit("run_shell_command");
    assert("run_shell_command"@.len() == 17 && "run_shell_command"@[0] == 'r' && "run_shell_command"@[1] == 'u');
    reveal_strlit("bash");
    assert("bash"@.len() == 4 && "bash"@[0] == 'b' && "bash"@[1] == 'a');
    reveal_strlit("image_generate");
    assert("image_generate"@.len() == 14 && "image_generate"@[0] == 'i' && "image_generate"@[1] == 'm');
    reveal_strlit("image_read");
    assert("image_read"@.len() == 10 && "image_read"@[0] == 'i' && "image_read"@[1] == 'm');
    reveal_strlit("web_search_planning");
    assert("web_search_planning"@.len() == 19 && "web_search_planning"@[0] == 'w' && "web_search_planning"@[1] == 'e');
    reveal_strlit("list_directory");
    assert("list_directory"@.len() == 14 && "list_directory"@[0] == 'l' && "list_directory"@[1] == 'i');
    reveal_strlit("todo_write");
    assert("todo_write"@.len() == 10 && "todo_write"@[0] == 't' && "todo_write"@[1] == 'o');
    reveal_strlit("todo_read");
    assert("todo_read"@.len() == 9 && "todo_read"@[0] == 't' && "todo_read"@[1] == 'o');
    reveal_strlit("ask_user_question");
    assert("ask_user_question"@.len() == 17 && "ask_user_question"@[0] == 'a' && "ask_user_question"@[1] == 's');
}

proof fn lemma_lines_add(head: Seq<char>, rest: Seq<char>)
    requires
        head.len() > 0,
        head.last() != '\n',
        head.last() != '\r',
    ensures
        lines(head + seq!['\n'] + rest) == lines(head) + lines(rest),
    decreases head.len(),
{
    let text = head + seq!['\n'] + rest;
    head.index_of_first_ensures('\n');
    text.index_of_first_ensures('\n');
    let n = head.len() as int;
    assert(text[n] == '\n');
    assert(text.contains('\n'));
    let k = text.index_of_first('\n')->0;
    if head.contains('\n') {
        let m = head.index_of_first('\n')->0;
        assert(text[m] == head[m]);
        assert(k == m) by {
            if k < m {
                assert(text[k] == head[k]);
            }
        }
        assert(m < n - 1);
        assert(text.take(m) =~= head.take(m));
        assert(text.skip(m + 1) =~= head.skip(m + 1) + seq!['\n'] + rest);
        assert(head.skip(m + 1).last() == head.last());
        lemma_lines_add(head.skip(m + 1), rest);
        assert(lines(text) =~= lines(head) + lines(rest));
    } else {
        assert(k == n) by {
            if k < n {
                assert(text[k] == head[k]);
            }
        }
        assert(text.take(n) =~= head);
        assert(text.skip(n + 1) =~= rest);
        assert(lines(text) =~= lines(head) + lines(rest));
    }
}

proof fn lemma_some_line(text: Seq<char>)
    requires
        text.len() > 0,
    ensures
        lines(text).len() > 0,
{
    text.index_of_first_ensures('\n');
}

/// A text with no more lines than asked for, but no room to spare, is cut to
/// the characters asked for, and an ellipsis says so.
pub proof fn law_long_text_is_cut(text: Seq<char>, max_lines: nat, max_chars: nat)
    requires
        lines(text).len() <= max_lines,
        text.len() >= max_chars,
        text.len() > 0 ==> text[0] != '\n' && text.last() != '\n',
        plain_line_ends(text),
    ensures
        truncated(text, max_lines, max_chars) == text.take(max_chars as int) + "..."@,
{
    lemma_lines_joined(text);
    if text.len() == max_chars {
        assert(text.take(max_chars as int) =~= text);
    }
}

/// Of a text with more lines than asked for, the first ones are shown, cut to
/// the characters asked for, and an ellipsis says so.
pub proof fn law_first_lines_are_shown(
    head: Seq<char>,
    rest: Seq<char>,
    max_lines: nat,
    max_chars: nat,
)
    requires
        head.len() > 0,
        head[0] != '\n',
        head.last() != '\n',
        head.last() != '\r',
        plain_line_ends(head),
        lines(head).len() == max_lines,
        rest.len() > 0,
    ensures
        head.len() <= max_chars ==> truncated(head + seq!['\n'] + rest, max_lines, max_chars)
            == head + "..."@,
        head.len() > max_chars ==> truncated(head + seq!['\n'] + rest, max_lines, max_chars)
            == head.take(max_chars as int) + "..."@,
{
    let text = head + seq!['\n'] + rest;
    lemma_lines_add(head, rest);
    lemma_lines_joined(head);
    lemma_some_line(rest);
    assert(lines(text).take(max_lines as int) =~= lines(head));
}

proof fn lemma_joined_after_empty(ls: Seq<Seq<char>>)
    ensures
        joined_lines(seq![Seq::<char>::empty()] + ls) == joined_lines(ls),
    decreases ls.len(),
{
    let all = seq![Seq::<char>::empty()] + ls;
    if ls.len() == 0 {
        assert(all.drop_last().len() == 0);
        assert(joined_lines(all.drop_last()).len() == 0);
        assert(joined_lines(all) =~= Seq::<char>::empty());
        assert(joined_lines(ls) =~= Seq::<char>::empty());
    } else {
        assert(all.drop_last() =~= seq![Seq::<char>::empty()] + ls.drop_last());
        assert(all.last() == ls.last());
        lemma_joined_after_empty(ls.drop_last());
    }
}

/// An empty line at the start is counted but not shown.
pub proof fn law_empty_first_line_is_not_shown(
    text: Seq<char>,
    max_lines: nat,
    max_chars: nat,
)
    requires
        text.len() != max_chars,
    ensures
        truncated(seq!['\n'] + text, max_lines + 1, max_chars) == truncated(
            text,
            max_lines,
            max_chars,
        ),
{
    let wide = seq!['\n'] + text;
    let none = Seq::<char>::empty();
    law_lines_end_at_line_feeds(none, text);
    assert(none + seq!['\n'] + text =~= wide);
    assert(lines(wide) == seq![none] + lines(text));
    let ls = at_most(lines(text), max_lines);
    assert(at_most(lines(wide), max_lines + 1) =~= seq![none] + ls);
    lemma_joined_after_empty(ls);
}

/// How its lines end makes no difference to what is shown of a text, nor does
/// a line feed at its end: texts with the same lines are shown alike as long
/// as neither is too long.
pub proof fn law_only_the_lines_matter(
    one: Seq<char>,
    other: Seq<char>,
    max_lines: nat,
    max_chars: nat,
)
    requires
        lines(one) == lines(other),
        one.len() <= max_chars,
        other.len() <= max_chars,
    ensures
        truncated(one, max_lines, max_chars) == truncated(other, max_lines, max_chars),
        one.len() > 0 && one.last() != '\n' && one.last() != '\r' ==> lines(one + seq!['\n'])
            == lines(one),
{
    if one.len() > 0 && one.last() != '\n' && one.last() != '\r' {
        let none = Seq::<char>::empty();
        lemma_lines_add(one, none);
        assert(one + seq!['\n'] + none =~= one + seq!['\n']);
        assert(lines(one) + lines(none) =~= lines(one));
    }
}

/// Each line of a preview is indented and escaped, and a break parts it from
/// the one before.
pub proof fn law_lines_are_indented(a: Seq<Seq<char>>, b: Seq<Seq<char>>, line: Seq<char>)
    ensures
        indented(seq![line]) == "　　"@ + escaped(line),
        indented(Seq::<Seq<char>>::empty()).len() == 0,
        a.len() > 0 && b.len() > 0 ==> indented(a + b) == indented(a) + "<br/>"@ + indented(b),
    decreases b.len(),
{
    if a.len() > 0 && b.len() > 0 {
        let all = a + b;
        assert(all.last() == b.last());
        assert(all.drop_last() =~= a + b.drop_last());
        if b.len() == 1 {
            assert(a + b.drop_last() =~= a);
            assert(indented(all) =~= indented(a) + "<br/>"@ + indented(b));
        } else {
            law_lines_are_indented(a, b.drop_last(), line);
            assert(indented(all) =~= indented(a) + "<br/>"@ + indented(b));
        }
    }
}

/// A preview shows a text of up to three lines as it is if there is room for
/// it, and cut to the room there is otherwise; of a longer text it shows the
/// first three lines, cut likewise. Whatever is left out, an ellipsis stands
/// for it.
pub proof fn law_preview_shows_three_lines(head: Seq<char>, rest: Seq<char>, max_chars: nat)
    requires
        head.len() > 0,
        head[0] != '\n',
        head.last() != '\n',
        head.last() != '\r',
        plain_line_ends(head),
    ensures
        preview(rest, max_chars) == indented(lines(truncated(rest, 3, max_chars))),
        lines(head).len() <= 3 && head.len() < max_chars ==> preview(head, max_chars) == indented(
            lines(head),
        ),
        lines(head).len() <= 3 && head.len() >= max_chars ==> preview(head, max_chars)
            == indented(lines(head.take(max_chars as int) + "..."@)),
        lines(head).len() == 3 && rest.len() > 0 && head.len() <= max_chars ==> preview(
            head + seq!['\n'] + rest,
            max_chars,
        ) == indented(lines(head + "..."@)),
        lines(head).len() == 3 && rest.len() > 0 && head.len() > max_chars ==> preview(
            head + seq!['\n'] + rest,
            max_chars,
        ) == indented(lines(head.take(max_chars as int) + "..."@)),
{
    if lines(head).len() <= 3 {
        if head.len() < max_chars {
            law_short_text_shown_whole(head, 3, max_chars);
        } else {
            law_long_text_is_cut(head, 3, max_chars);
        }
    }
    if lines(head).len() == 3 && rest.len() > 0 {
        law_first_lines_are_shown(head, rest, 3, max_chars);
    }
}

/// What the entry of a call shows of its input: the label and the preview.
pub open spec fn shows_input(section: Seq<char>, text: Seq<char>) -> bool {
    section == "<br/><br/><blockquote>"@ + "📥 输入"@ + "<br/><code>"@ + preview(text, 128)
        + "</code></blockquote>"@
}

/// What the entry of a call shows of its output: the label, which tells whether
/// the call failed, and the preview.
pub open spec fn shows_output(section: Seq<char>, text: Seq<char>, failed: bool) -> bool {
    if failed {
        section == "<blockquote>"@ + "❌ 错误"@ + " "@ + "❌ 错误"@ + "<br/><code>"@ + preview(
            text,
            256,
        ) + "</code></blockquote>"@
    } else {
        section == "<blockquote>"@ + " "@ + "✅ 输出"@ + "<br/><code>"@ + preview(text, 256)
            + "</code></blockquote>"@
    }
}

/// The entry of a call holds its number, icon and name, then what is shown of
/// its input if it has one, and then what is shown of its output, whether the
/// call failed or not.
pub proof fn law_entry_shows_the_whole_call(number: nat, t: ToolCall)
    ensures
        ({
            let head = "<blockquote>"@ + decimal(number) + ". "@ + icon_of(t.name) + " <b>"@
                + t.name + "</b>"@;
            let input = input_section(t.input);
            let output = output_section(t.output, t.failed);
            &&& tool_entry(number, t) == head + input + output + "</blockquote>"@
            &&& t.input matches Some(text) ==> shows_input(input, text)
            &&& t.input is None ==> input.len() == 0
            &&& t.output matches Some(text) ==> shows_output(output, text, t.failed)
            &&& t.output is None ==> output.len() == 0
        }),
{
    let none = Seq::<char>::empty();
    assert("<blockquote>"@ + none + " "@ =~= "<blockquote>"@ + " "@);
}

proof fn lemma_text_in_section(
    before: Seq<char>,
    label: Seq<char>,
    parts: (Seq<char>, Seq<char>),
    close: (Seq<char>, Seq<char>),
    after: Seq<char>,
)
    ensures
        has_text(
            before + label + parts.0 + parts.1 + (close.0 + close.1) + after,
            label + parts.0 + parts.1 + close.0,
        ),
{
    let s = before + label + parts.0 + parts.1 + (close.0 + close.1) + after;
    let shown = label + parts.0 + parts.1 + close.0;
    assert(s =~= before + shown + (close.1 + after));
    law_text_is_found_where_it_stands(s, before, shown, close.1 + after);
}

proof fn lemma_entry_shows_input(number: nat, t: ToolCall, text: Seq<char>)
    requires
        t.input == Some(text),
    ensures
        has_text(
            tool_entry(number, t),
            "📥 输入"@ + "<br/><code>"@ + preview(text, 128) + "</code>"@,
        ),
{
    reveal_strlit("</code></blockquote>");
    reveal_strlit("</code>");
    reveal_strlit("</blockquote>");
    assert("</code></blockquote>"@ =~= "</code>"@ + "</blockquote>"@);
    let head = "<blockquote>"@ + decimal(number) + ". "@ + icon_of(t.name) + " <b>"@ + t.name
        + "</b>"@;
    let output = output_section(t.output, t.failed);
    let before = head + "<br/><br/><blockquote>"@;
    let close = "</code></blockquote>"@;
    let after = output + "</blockquote>"@;
    lemma_text_in_section(
        before,
        "📥 输入"@,
        ("<br/><code>"@, preview(text, 128)),
        ("</code>"@, "</blockquote>"@),
        after,
    );
    lemma_regroup(
        head,
        ("<br/><br/><blockquote>"@, "📥 输入"@),
        ("<br/><code>"@, preview(text, 128)),
        close,
        (output, "</blockquote>"@),
    );
}

proof fn lemma_regroup(
    head: Seq<char>,
    open: (Seq<char>, Seq<char>),
    parts: (Seq<char>, Seq<char>),
    close: Seq<char>,
    tail: (Seq<char>, Seq<char>),
)
    ensures
        head + (open.0 + open.1 + parts.0 + parts.1 + close) + tail.0 + tail.1 == (head + open.0)
            + open.1 + parts.0 + parts.1 + close + (tail.0 + tail.1),
{
    assert(head + (open.0 + open.1 + parts.0 + parts.1 + close) + tail.0 + tail.1 =~= (head
        + open.0) + open.1 + parts.0 + parts.1 + close + (tail.0 + tail.1));
}

proof fn lemma_entry_shows_output(number: nat, t: ToolCall, text: Seq<char>)
    requires
        t.output == Some(text),
    ensures
        has_text(
            tool_entry(number, t),
            (if t.failed {
                "❌ 错误"@
            } else {
                "✅ 输出"@
            }) + "<br/><code>"@ + preview(text, 256) + "</code>"@,
        ),
{
    reveal_strlit("</code></blockquote>");
    reveal_strlit("</code>");
    reveal_strlit("</blockquote>");
    assert("</code></blockquote>"@ =~= "</code>"@ + "</blockquote>"@);
    let head = "<blockquote>"@ + decimal(number) + ". "@ + icon_of(t.name) + " <b>"@ + t.name
        + "</b>"@ + input_section(t.input);
    let mark = if t.failed {
        "❌ 错误"@
    } else {
        seq![]
    };
    let label = if t.failed {
        "❌ 错误"@
    } else {
        "✅ 输出"@
    };
    let open = "<blockquote>"@ + mark + " "@;
    let none = Seq::<char>::empty();
    lemma_text_in_section(
        head + open,
        label,
        ("<br/><code>"@, preview(text, 256)),
        ("</code>"@, "</blockquote>"@),
        "</blockquote>"@ + none,
    );
    lemma_regroup(
        head,
        (open, label),
        ("<br/><code>"@, preview(text, 256)),
        "</code></blockquote>"@,
        ("</blockquote>"@, none),
    );
    let section = open + label + "<br/><code>"@ + preview(text, 256) + "</code></blockquote>"@;
    assert(head + section + "</blockquote>"@ + none =~= head + section + "</blockquote>"@);
}

/// Whatever became of a call, its entry shows its name, its input under the
/// label, and its output under the label for what became of it.
pub proof fn law_entry_shows_input_and_output(number: nat, t: ToolCall)
    ensures
        t.input matches Some(text) ==> has_text(
            tool_entry(number, t),
            "📥 输入"@ + "<br/><code>"@ + preview(text, 128) + "</code>"@,
        ),
        t.output matches Some(text) ==> has_text(
            tool_entry(number, t),
            (if t.failed {
                "❌ 错误"@
            } else {
                "✅ 输出"@
            }) + "<br/><code>"@ + preview(text, 256) + "</code>"@,
        ),
        has_text(tool_entry(number, t), " <b>"@ + t.name + "</b>"@),
{
    if let Some(text) = t.input {
        lemma_entry_shows_input(number, t, text);
    }
    if let Some(text) = t.output {
        lemma_entry_shows_output(number, t, text);
    }
    let before = "<blockquote>"@ + decimal(number) + ". "@ + icon_of(t.name);
    let named = " <b>"@ + t.name + "</b>"@;
    let after = input_section(t.input) + output_section(t.output, t.failed) + "</blockquote>"@;
    assert(tool_entry(number, t) =~= before + named + after);
    law_text_is_found_where_it_stands(tool_entry(number, t), before, named, after);
}

proof fn lemma_entry_stands(done: Seq<ToolCall>, i: int) -> (split: (Seq<char>, Seq<char>))
    requires
        0 <= i < done.len(),
    ensures
        tool_entries(done) == split.0 + tool_entry((i + 1) as nat, done[i]) + split.1,
    decreases done.len(),
{
    let front = tool_entries(done.drop_last());
    let last = tool_entry(done.len(), done.last());
    if i == done.len() - 1 {
        assert(front + last + Seq::<char>::empty() =~= tool_entries(done));
        (front, Seq::<char>::empty())
    } else {
        let (a, b) = lemma_entry_stands(done.drop_last(), i);
        let entry = tool_entry((i + 1) as nat, done[i]);
        assert(done.drop_last()[i] == done[i]);
        assert(a + entry + (b + last) =~= tool_entries(done));
        (a, b + last)
    }
}

/// The tool calls are shown under a heading with their number; every completed
/// call has its entry, numbered in order from one, and nothing else stands
/// there.
pub proof fn law_every_completed_call_has_its_entry(calls: Seq<ToolCall>, i: int)
    requires
        0 <= i < completed(calls).len(),
    ensures
        has_text(tool_calls_html(calls), tool_entry((i + 1) as nat, completed(calls)[i])),
        tool_calls_html(calls) == "<b>"@ + "🔧 工具调用"@ + " ("@ + decimal(
            completed(calls).len(),
        ) + ")</b><br/>"@ + tool_entries(completed(calls)) + "<br/>"@,
{
    let done = completed(calls);
    let (a, b) = lemma_entry_stands(done, i);
    let head = "<b>"@ + TOOL_CALLS_HEADER@ + " ("@ + decimal(done.len()) + ")</b><br/>"@;
    let entry = tool_entry((i + 1) as nat, done[i]);
    assert(tool_calls_html(calls) =~= (head + a) + entry + (b + "<br/>"@));
    law_text_is_found_where_it_stands(
        tool_calls_html(calls),
        head + a,
        entry,
        b + "<br/>"@,
    );
}

/// Entries are added at the end: another completed call adds its entry, with
/// the next number, and changes none before it.
pub proof fn law_entries_are_added_at_the_end(done: Seq<ToolCall>, t: ToolCall)
    ensures
        tool_entries(done.push(t)) == tool_entries(done) + tool_entry(done.len() + 1, t),
        tool_entries(Seq::<ToolCall>::empty()).len() == 0,
{
    assert(done.push(t).drop_last() =~= done);
}

/// The completed calls are those with an output, in order.
pub proof fn law_completed_calls_have_an_output(a: Seq<ToolCall>, b: Seq<ToolCall>, t: ToolCall)
    ensures
        completed(a + b) == completed(a) + completed(b),
        t.output is Some ==> completed(seq![t]) == seq![t],
        t.output is None ==> completed(seq![t]).len() == 0,
        completed(Seq::<ToolCall>::empty()).len() == 0,
    decreases b.len(),
{
    reveal(Seq::filter);
    assert(seq![t].drop_last().len() == 0);
    assert(completed(seq![t].drop_last()).len() == 0);
    assert(t.output is Some ==> completed(seq![t]) =~= seq![t]);
    if b.len() == 0 {
        assert(a + b =~= a);
        assert(completed(a) + completed(b) =~= completed(a));
    } else {
        assert((a + b).drop_last() =~= a + b.drop_last());
        assert((a + b).last() == b.last());
        law_completed_calls_have_an_output(a, b.drop_last(), t);
        assert(completed(a + b) =~= completed(a) + completed(b));
    }
}

/// A tool call is seen in full, and a list of them call by call.
pub proof fn law_tool_calls_are_seen_in_full(t: ToolCallInfo, list: Seq<ToolCallInfo>)
    ensures
        tool_call(t).name == t.0@,
        tool_call(t).input is Some <==> t.1 is Some,
        t.1 matches Some(s) ==> tool_call(t).input == Some(s@),
        tool_call(t).output is Some <==> t.2 is Some,
        t.2 matches Some(s) ==> tool_call(t).output == Some(s@),
        tool_call(t).loading == t.3,
        tool_call(t).failed == t.4,
        tool_calls(list).len() == list.len(),
        forall|i: int| 0 <= i < list.len() ==> #[trigger] tool_calls(list)[i] == tool_call(list[i]),
{
}

/// Lines are joined by line feeds, from the first that is not empty on.
pub proof fn law_lines_are_joined_by_line_feeds(ls: Seq<Seq<char>>, line: Seq<char>)
    ensures
        joined_lines(ls).len() > 0 ==> joined_lines(ls.push(line)) == joined_lines(ls)
            + seq!['\n'] + line,
        joined_lines(ls).len() == 0 ==> joined_lines(ls.push(line)) == line,
        joined_lines(Seq::<Seq<char>>::empty()).len() == 0,
{
    assert(ls.push(line).drop_last() =~= ls);
    assert(joined_lines(ls).push('\n') + line =~= joined_lines(ls) + seq!['\n'] + line);
}

/// What is shown of a text starts with the first lines asked for, joined, as
/// far as there is room for them. An ellipsis ends it exactly if a line or a
/// character was too many, or if there was no room to spare.
pub proof fn law_ellipsis_stands_for_what_is_left_out(
    text: Seq<char>,
    max_lines: nat,
    max_chars: nat,
)
    ensures
        ({
            let n = lines(text).len();
            let joined = joined_lines(
                lines(text).take(
                    if n < max_lines {
                        n as int
                    } else {
                        max_lines as int
                    },
                ),
            );
            let room = joined.take(
                if joined.len() < max_chars {
                    joined.len() as int
                } else {
                    max_chars as int
                },
            );
            let shown = truncated(text, max_lines, max_chars);
            if n > max_lines || text.len() > max_chars || joined.len() >= max_chars {
                shown == room + "..."@
            } else {
                shown == room
            }
        }),
{
    let n = lines(text).len();
    let count: int = if n < max_lines {
        n as int
    } else {
        max_lines as int
    };
    assert(at_most(lines(text), max_lines) =~= lines(text).take(count));
    let joined = joined_lines(lines(text).take(count));
    if joined.len() <= max_chars {
        assert(joined.take(joined.len() as int) =~= joined);
    }
}

} // verus!
