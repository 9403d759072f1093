//! HTML in messages: telling it from plain text, reducing it to plain text,
//! and escaping plain text for it.

use crate::escape_laws::law_escaped_has_no_brackets;
use crate::text::{
    chars_of, contains_text, drop_leading, drop_trailing, has_text, is_space, occurs_at,
    replace_text, replaced, space, string_of, trim, trimmed,
};
use vstd::prelude::*;
use vstd::string::StringExecFns;
use vstd::utf8::is_ascii_chars;

verus! {

/// `s` ends inside a tag: of its angle brackets, the last one opens.
pub open spec fn in_tag(s: Seq<char>) -> bool
    decreases s.len(),
{
    if s.len() == 0 {
        false
    } else if s.last() == '<' {
        true
    } else if s.last() == '>' {
        false
    } else {
        in_tag(s.drop_last())
    }
}

/// The characters of `s` that are neither angle brackets nor inside a tag.
pub open spec fn outside_tags(s: Seq<char>) -> Seq<char>
    decreases s.len(),
{
    if s.len() == 0 {
        seq![]
    } else if s.last() == '<' || s.last() == '>' || in_tag(s.drop_last()) {
        outside_tags(s.drop_last())
    } else {
        outside_tags(s.drop_last()).push(s.last())
    }
}

/// `s` with the common entities decoded, `&amp;` first.
pub open spec fn decoded(s: Seq<char>) -> Seq<char> {
    let s = replaced(s, "&amp;"@, "&"@);
    let s = replaced(s, "&lt;"@, "<"@);
    let s = replaced(s, "&gt;"@, ">"@);
    let s = replaced(s, "&quot;"@, "\""@);
    let s = replaced(s, "&#39;"@, "'"@);
    replaced(s, "&nbsp;"@, " "@)
}

/// `s` with every run of white space reduced to its first character.
pub open spec fn collapsed(s: Seq<char>) -> Seq<char>
    decreases s.len(),
{
    if s.len() == 0 {
        seq![]
    } else if s.len() >= 2 && is_space(s.last()) && is_space(s[s.len() - 2]) {
        collapsed(s.drop_last())
    } else {
        collapsed(s.drop_last()).push(s.last())
    }
}

/// The plain text of the HTML `html`: tags removed, entities decoded, white
/// space collapsed and trimmed.
pub open spec fn stripped(html: Seq<char>) -> Seq<char> {
    trimmed(collapsed(decoded(outside_tags(html))))
}

fn remove_tags(html: &[char]) -> (r: Vec<char>)
    ensures
        r@ == outside_tags(html@),
{
    let mut out: Vec<char> = Vec::new();
    let mut inside = false;
    for i in 0..html.len()
        invariant
            inside == in_tag(html@.take(i as int)),
            out@ == outside_tags(html@.take(i as int)),
    {
        let c = html[i];
        proof {
            assert(html@.take(i as int + 1).drop_last() =~= html@.take(i as int));
            assert(html@.take(i as int + 1).last() == c);
        }
        if c == '<' {
            inside = true;
        } else if c == '>' {
            inside = false;
        } else if !inside {
            out.push(c);
        }
    }
    assert(html@.take(html@.len() as int) =~= html@);
    out
}

fn decode_entities(s: &[char]) -> (r: Vec<char>)
    ensures
        r@ == decoded(s@),
{
    proof {
        reveal_strlit("&amp;");
        reveal_strlit("&lt;");
        reveal_strlit("&gt;");
        reveal_strlit("&quot;");
        reveal_strlit("&#39;");
        reveal_strlit("&nbsp;");
    }
    let s = replace_text(s, chars_of("&amp;").as_slice(), chars_of("&").as_slice());
    let s = replace_text(s.as_slice(), chars_of("&lt;").as_slice(), chars_of("<").as_slice());
    let s = replace_text(s.as_slice(), chars_of("&gt;").as_slice(), chars_of(">").as_slice());
    let s = replace_text(s.as_slice(), chars_of("&quot;").as_slice(), chars_of("\"").as_slice());
    let s = replace_text(s.as_slice(), chars_of("&#39;").as_slice(), chars_of("'").as_slice());
    replace_text(s.as_slice(), chars_of("&nbsp;").as_slice(), chars_of(" ").as_slice())
}

fn collapse_space(s: &[char]) -> (r: Vec<char>)
    ensures
        r@ == collapsed(s@),
{
    let mut out: Vec<char> = Vec::new();
    let mut prev_whitespace = false;
    for i in 0..s.len()
        invariant
            prev_whitespace == (i > 0 && is_space(s@[i - 1])),
            out@ == collapsed(s@.take(i as int)),
    {
        let c = s[i];
        proof {
            assert(s@.take(i as int + 1).drop_last() =~= s@.take(i as int));
        }
        if space(c) {
            if !prev_whitespace {
                out.push(c);
            }
            prev_whitespace = true;
        } else {
            out.push(c);
            prev_whitespace = false;
        }
    }
    assert(s@.take(s@.len() as int) =~= s@);
    out
}

/// Strip HTML tags to produce plain text fallback.
pub fn strip_html_tags(html: &str) -> (r: String)
    ensures
        r@ == stripped(html@),
{
    let bare = remove_tags(chars_of(html).as_slice());
    let plain = decode_entities(bare.as_slice());
    let tidy = collapse_space(plain.as_slice());
    string_of(trim(tidy.as_slice()).as_slice())
}

/// The marks by which a message counts as HTML, in lower case.
pub open spec fn html_patterns() -> Seq<Seq<char>> {
    seq![
        "<b>"@, "</b>"@, "<i>"@, "</i>"@, "<u>"@, "</u>"@, "<strong>"@, "</strong>"@, "<em>"@,
        "</em>"@, "<del>"@, "</del>"@, "<code>"@, "</code>"@, "<pre>"@, "</pre>"@, "<a href"@,
        "</a>"@, "<blockquote>"@, "</blockquote>"@, "<h1>"@, "</h1>"@, "<h2>"@, "</h2>"@,
        "<h3>"@, "</h3>"@, "<h4>"@, "</h4>"@, "<h5>"@, "</h5>"@, "<h6>"@, "</h6>"@, "<ul>"@,
        "</ul>"@, "<ol>"@, "</ol>"@, "<li>"@, "</li>"@, "<table>"@, "</table>"@, "<thead>"@,
        "</thead>"@, "<tbody>"@, "</tbody>"@, "<tr>"@, "</tr>"@, "<th>"@, "</th>"@, "<td>"@,
        "</td>"@, "<p>"@, "</p>"@, "<br>"@, "<hr>"@, "<img"@, "<details>"@, "</details>"@,
        "<summary>"@, "</summary>"@,
    ]
}

/// One of the HTML marks stands in `lower`.
pub open spec fn has_html_mark(lower: Seq<char>) -> bool {
    exists|i: int|
        0 <= i < html_patterns().len() && has_text(lower, #[trigger] html_patterns()[i])
}

/// Whether text that is already in lower case contains an HTML mark.
pub fn contains_html_mark(lower: &str) -> (r: bool)
    ensures
        r == has_html_mark(lower@),
{
    let patterns: [&str; 59] = [
        "<b>", "</b>", "<i>", "</i>", "<u>", "</u>", "<strong>", "</strong>", "<em>", "</em>",
        "<del>", "</del>", "<code>", "</code>", "<pre>", "</pre>", "<a href", "</a>",
        "<blockquote>", "</blockquote>", "<h1>", "</h1>", "<h2>", "</h2>", "<h3>", "</h3>",
        "<h4>", "</h4>", "<h5>", "</h5>", "<h6>", "</h6>", "<ul>", "</ul>", "<ol>", "</ol>",
        "<li>", "</li>", "<table>", "</table>", "<thead>", "</thead>", "<tbody>", "</tbody>",
        "<tr>", "</tr>", "<th>", "</th>", "<td>", "</td>", "<p>", "</p>", "<br>", "<hr>",
        "<img", "<details>", "</details>", "<summary>", "</summary>",
    ];
    let text = chars_of(lower);
    let ghost marks = html_patterns();
    proof {
        assert(marks.len() == 59);
        assert forall|j: int| 0 <= j < 59 implies (#[trigger] patterns@[j])@ == marks[j] by {}
    }
    for i in 0..59
        invariant
            text@ == lower@,
            marks == html_patterns(),
            marks.len() == 59,
            patterns@.len() == 59,
            forall|j: int| 0 <= j < 59 ==> (#[trigger] patterns@[j])@ == marks[j],
            forall|j: int| 0 <= j < i ==> !has_text(lower@, #[trigger] marks[j]),
    {
        let mark = chars_of(patterns[i]);
        assert(mark@ == marks[i as int]);
        if contains_text(text.as_slice(), mark.as_slice()) {
            return true;
        }
    }
    false
}

/// The character that `c` is in lower case, if it is an ASCII letter, or `c`.
pub open spec fn ascii_lower(c: char) -> char {
    if 'A' <= c <= 'Z' {
        ((c as u8) + 32) as char
    } else {
        c
    }
}

/// `s` with its ASCII letters in lower case.
pub open spec fn ascii_lowered(s: Seq<char>) -> Seq<char> {
    s.map_values(|c: char| ascii_lower(c))
}

/// What `str::to_lowercase` makes of a string: its lower case in the sense of
/// Unicode.
pub uninterp spec fn lowercase(s: Seq<char>) -> Seq<char>;

/// Calls `str::to_lowercase`. The result is a function of the text alone, and
/// of ASCII text it is the same text with the letters `A` to `Z` mapped to `a`
/// to `z`. Characters are mapped one by one, as Unicode's tables say; only the
/// Greek sigma depends on what stands around it. So a part of the text that is
/// ASCII is mapped as it is alone, and what it becomes stands in the result;
/// and as `<` is the lower case of no other character, it stands in the result
/// only if it stands in the text. How other characters are mapped is left to
/// Unicode.
#[verifier::external_body]
fn to_lowercase(s: &str) -> (r: String)
    ensures
        r@ == lowercase(s@),
        s.is_ascii() ==> r@ == ascii_lowered(s@),
        forall|i: int, j: int|
            0 <= i <= j <= s@.len() && is_ascii_chars(#[trigger] s@.subrange(i, j)) ==> has_text(
                r@,
                ascii_lowered(s@.subrange(i, j)),
            ),
        r@.contains('<') ==> s@.contains('<'),
{
    s.to_lowercase()
}

/// Check if text contains HTML tags that should be sent as formatted Matrix
/// message. The case of the tags does not matter: a mark in any ASCII case
/// counts, whatever stands around it. Text without a `<` has none.
pub fn contains_html_tags(text: &str) -> (r: bool)
    ensures
        r == has_html_mark(lowercase(text@)),
        text.is_ascii() ==> r == has_html_mark(ascii_lowered(text@)),
        has_html_mark(ascii_lowered(text@)) ==> r,
        !text@.contains('<') ==> !r,
{
    let lower = to_lowercase(text);
    proof {
        if !lower@.contains('<') {
            lemma_no_mark(lower@);
        }
        if has_html_mark(ascii_lowered(text@)) {
            let i = choose|i: int|
                0 <= i < html_patterns().len() && has_text(
                    ascii_lowered(text@),
                    #[trigger] html_patterns()[i],
                );
            let mark = html_patterns()[i];
            let at = choose|at: int| #[trigger] occurs_at(ascii_lowered(text@), mark, at);
            lemma_lowered_window(text@, i, at);
            assert(has_text(lower@, ascii_lowered(text@.subrange(at, at + mark.len()))));
            assert(has_text(lower@, html_patterns()[i]));
        }
    }
    contains_html_mark(lower.as_str())
}

/// What `c` is written as in HTML.
pub open spec fn escaped_char(c: char) -> Seq<char> {
    if c == '&' {
        "&amp;"@
    } else if c == '<' {
        "&lt;"@
    } else if c == '>' {
        "&gt;"@
    } else {
        seq![c]
    }
}

/// `s` with the HTML special characters `&`, `<` and `>` escaped.
pub open spec fn escaped(s: Seq<char>) -> Seq<char>
    decreases s.len(),
{
    if s.len() == 0 {
        seq![]
    } else {
        escaped(s.drop_last()) + escaped_char(s.last())
    }
}

/// Escape HTML special characters.
pub fn escape_html(s: &str) -> (r: String)
    ensures
        r@ == escaped(s@),
        no_brackets(r@),
{
    let chars = chars_of(s);
    let mut out = String::new();
    for i in 0..chars.len()
        invariant
            chars@ == s@,
            out@ == escaped(s@.take(i as int)),
    {
        proof {
            assert(s@.take(i as int + 1).drop_last() =~= s@.take(i as int));
        }
        let c = chars[i];
        if c == '&' {
            out.append("&amp;");
        } else if c == '<' {
            out.append("&lt;");
        } else if c == '>' {
            out.append("&gt;");
        } else {
            out.push(c);
            assert(out@ =~= escaped(s@.take(i as int)) + seq![c]);
        }
    }
    assert(s@.take(s@.len() as int) =~= s@);
    proof {
        law_escaped_has_no_brackets(s@);
    }
    out
}

/// No angle bracket stands in `s`.
pub open spec fn no_brackets(s: Seq<char>) -> bool {
    forall|i: int| 0 <= i < s.len() ==> #[trigger] s[i] != '<' && s[i] != '>'
}

/// No two white space characters stand next to each other in `s`.
pub open spec fn single_spaced(s: Seq<char>) -> bool {
    forall|i: int, j: int|
        #![trigger s[i], s[j]]
        0 <= i < s.len() && j == i + 1 && j < s.len() ==> !(is_space(s[i]) && is_space(s[j]))
}

/// `s` neither starts nor ends with white space.
pub open spec fn no_outer_space(s: Seq<char>) -> bool {
    s.len() > 0 ==> !is_space(s[0]) && !is_space(s.last())
}

/// Text without angle brackets has no tags to remove.
pub(crate) proof fn lemma_outside_tags_kept(s: Seq<char>)
    requires
        no_brackets(s),
    ensures
        !in_tag(s),
        outside_tags(s) == s,
    decreases s.len(),
{
    if s.len() > 0 {
        assert forall|i: int| 0 <= i < s.drop_last().len() implies #[trigger] s.drop_last()[i]
            != '<' && s.drop_last()[i] != '>' by {
            assert(s.drop_last()[i] == s[i]);
        }
        lemma_outside_tags_kept(s.drop_last());
        assert(s.last() == s[s.len() - 1]);
        assert(s.drop_last().push(s.last()) =~= s);
    }
}

/// Replacing leaves a text alone in which the first character of what is
/// replaced does not stand.
proof fn lemma_replaced_kept(s: Seq<char>, from: Seq<char>, to: Seq<char>)
    requires
        from.len() > 0,
        !s.contains(from[0]),
    ensures
        replaced(s, from, to) == s,
    decreases s.len(),
{
    if s.len() >= from.len() {
        assert(s[0] != from[0]);
        assert(s.take(from.len() as int)[0] == s[0]);
        assert forall|i: int| 0 <= i < s.skip(1).len() implies s.skip(1)[i] != from[0] by {
            assert(s.skip(1)[i] == s[i + 1]);
        }
        lemma_replaced_kept(s.skip(1), from, to);
        assert(seq![s[0]] + s.skip(1) =~= s);
    }
}

proof fn lemma_decoded_kept(s: Seq<char>)
    requires
        !s.contains('&'),
    ensures
        decoded(s) == s,
{
    reveal_strlit("&amp;");
    reveal_strlit("&lt;");
    reveal_strlit("&gt;");
    reveal_strlit("&quot;");
    reveal_strlit("&#39;");
    reveal_strlit("&nbsp;");
    lemma_replaced_kept(s, "&amp;"@, "&"@);
    lemma_replaced_kept(s, "&lt;"@, "<"@);
    lemma_replaced_kept(s, "&gt;"@, ">"@);
    lemma_replaced_kept(s, "&quot;"@, "\""@);
    lemma_replaced_kept(s, "&#39;"@, "'"@);
    lemma_replaced_kept(s, "&nbsp;"@, " "@);
}

pub(crate) proof fn lemma_collapsed_kept(s: Seq<char>)
    requires
        single_spaced(s),
    ensures
        collapsed(s) == s,
    decreases s.len(),
{
    if s.len() > 0 {
        let front = s.drop_last();
        assert(single_spaced(front)) by {
            assert forall|i: int, j: int|
                #![trigger front[i], front[j]]
                0 <= i < front.len() && j == i + 1 && j < front.len() implies !(is_space(front[i])
                && is_space(front[j])) by {
                assert(front[i] == s[i] && front[j] == s[j]);
            }
        }
        lemma_collapsed_kept(front);
        if s.len() >= 2 {
            assert(s.last() == s[s.len() - 1]);
            assert(!(is_space(s[s.len() - 2]) && is_space(s[s.len() - 1])));
        }
        assert(front.push(s.last()) =~= s);
    }
}

/// What collapsing leaves is single-spaced, and ends as the text ends.
proof fn lemma_collapsed(s: Seq<char>)
    ensures
        single_spaced(collapsed(s)),
        collapsed(s).len() > 0 <==> s.len() > 0,
        s.len() > 0 ==> is_space(collapsed(s).last()) == is_space(s.last()),
    decreases s.len(),
{
    if s.len() > 0 {
        let front = s.drop_last();
        lemma_collapsed(front);
        let c = collapsed(front);
        if s.len() >= 2 && is_space(s.last()) && is_space(s[s.len() - 2]) {
            assert(front.last() == s[s.len() - 2]);
        } else {
            let r = c.push(s.last());
            assert forall|i: int, j: int|
                #![trigger r[i], r[j]]
                0 <= i < r.len() && j == i + 1 && j < r.len() implies !(is_space(r[i]) && is_space(
                r[j],
            )) by {
                if j < c.len() {
                    assert(r[i] == c[i] && r[j] == c[j]);
                } else {
                    assert(c.len() > 0);
                    assert(front.last() == s[s.len() - 2]);
                    assert(r[i] == c.last());
                }
            }
        }
    }
}

/// A part of a single-spaced text is single-spaced.
proof fn lemma_single_spaced_part(s: Seq<char>, from: int, to: int)
    requires
        single_spaced(s),
        0 <= from <= to <= s.len(),
    ensures
        single_spaced(s.subrange(from, to)),
{
    let part = s.subrange(from, to);
    assert forall|i: int, j: int|
        #![trigger part[i], part[j]]
        0 <= i < part.len() && j == i + 1 && j < part.len() implies !(is_space(part[i])
        && is_space(part[j])) by {
        assert(part[i] == s[from + i] && part[j] == s[from + j]);
    }
}

proof fn lemma_drop_leading(s: Seq<char>)
    requires
        single_spaced(s),
    ensures
        single_spaced(drop_leading(s, |c: char| is_space(c))),
        drop_leading(s, |c: char| is_space(c)).len() > 0 ==> !is_space(
            drop_leading(s, |c: char| is_space(c))[0],
        ),
    decreases s.len(),
{
    if s.len() > 0 && is_space(s[0]) {
        lemma_single_spaced_part(s, 1, s.len() as int);
        assert(s.subrange(1, s.len() as int) =~= s.skip(1));
        lemma_drop_leading(s.skip(1));
    }
}

proof fn lemma_drop_trailing(s: Seq<char>)
    requires
        single_spaced(s),
        s.len() > 0 ==> !is_space(s[0]),
    ensures
        single_spaced(drop_trailing(s, |c: char| is_space(c))),
        no_outer_space(drop_trailing(s, |c: char| is_space(c))),
    decreases s.len(),
{
    if s.len() > 0 && is_space(s.last()) {
        lemma_single_spaced_part(s, 0, s.len() - 1);
        assert(s.subrange(0, s.len() - 1) =~= s.drop_last());
        if s.drop_last().len() > 0 {
            assert(s.drop_last()[0] == s[0]);
        }
        lemma_drop_trailing(s.drop_last());
    }
}

/// The plain text of any HTML is tidy: no white space at its ends, and none
/// next to other white space.
pub proof fn law_stripped_is_tidy(html: Seq<char>)
    ensures
        no_outer_space(stripped(html)),
        single_spaced(stripped(html)),
{
    let s = decoded(outside_tags(html));
    lemma_collapsed(s);
    lemma_drop_leading(collapsed(s));
    lemma_drop_trailing(drop_leading(collapsed(s), |c: char| is_space(c)));
}

/// Tidy text without tags and entities is its own plain text.
pub proof fn law_plain_text_is_kept(s: Seq<char>)
    requires
        no_brackets(s),
        !s.contains('&'),
        single_spaced(s),
        no_outer_space(s),
    ensures
        stripped(s) == s,
{
    lemma_outside_tags_kept(s);
    lemma_decoded_kept(s);
    lemma_collapsed_kept(s);
}

proof fn lemma_marks()
    ensures
        forall|i: int|
            0 <= i < html_patterns().len() ==> (#[trigger] html_patterns()[i]).len() > 0
                && html_patterns()[i][0] == '<' && is_ascii_chars(html_patterns()[i]),
{
    reveal_strlit("<b>");
    reveal_strlit("</b>");
    reveal_strlit("<i>");
    reveal_strlit("</i>");
    reveal_strlit("<u>");
    reveal_strlit("</u>");
    reveal_strlit("<strong>");
    reveal_strlit("</strong>");
    reveal_strlit("<em>");
    reveal_strlit("</em>");
    reveal_strlit("<del>");
    reveal_strlit("</del>");
    reveal_strlit("<code>");
    reveal_strlit("</code>");
    reveal_strlit("<pre>");
    reveal_strlit("</pre>");
    reveal_strlit("<a href");
    reveal_strlit("</a>");
    reveal_strlit("<blockquote>");
    reveal_strlit("</blockquote>");
    reveal_strlit("<h1>");
    reveal_strlit("</h1>");
    reveal_strlit("<h2>");
    reveal_strlit("</h2>");
    reveal_strlit("<h3>");
    reveal_strlit("</h3>");
    reveal_strlit("<h4>");
    reveal_strlit("</h4>");
    reveal_strlit("<h5>");
    reveal_strlit("</h5>");
    reveal_strlit("<h6>");
    reveal_strlit("</h6>");
    reveal_strlit("<ul>");
    reveal_strlit("</ul>");
    reveal_strlit("<ol>");
    reveal_strlit("</ol>");
    reveal_strlit("<li>");
    reveal_strlit("</li>");
    reveal_strlit("<table>");
    reveal_strlit("</table>");
    reveal_strlit("<thead>");
    reveal_strlit("</thead>");
    reveal_strlit("<tbody>");
    reveal_strlit("</tbody>");
    reveal_strlit("<tr>");
    reveal_strlit("</tr>");
    reveal_strlit("<th>");
    reveal_strlit("</th>");
    reveal_strlit("<td>");
    reveal_strlit("</td>");
    reveal_strlit("<p>");
    reveal_strlit("</p>");
    reveal_strlit("<br>");
    reveal_strlit("<hr>");
    reveal_strlit("<img");
    reveal_strlit("<details>");
    reveal_strlit("</details>");
    reveal_strlit("<summary>");
    reveal_strlit("</summary>");
}

/// A part of `s` that becomes an HTML mark in lower case is ASCII.
proof fn lemma_lowered_window(s: Seq<char>, i: int, at: int)
    requires
        0 <= i < html_patterns().len(),
        occurs_at(ascii_lowered(s), html_patterns()[i], at),
    ensures
        is_ascii_chars(s.subrange(at, at + html_patterns()[i].len())),
        ascii_lowered(s.subrange(at, at + html_patterns()[i].len())) == html_patterns()[i],
{
    lemma_marks();
    let mark = html_patterns()[i];
    let window = s.subrange(at, at + mark.len());
    assert(ascii_lowered(window) =~= ascii_lowered(s).subrange(at, at + mark.len()));
    assert forall|k: int| 0 <= k < window.len() implies '\0' <= #[trigger] window[k]
        <= '\u{7f}' by {
        assert(ascii_lowered(window)[k] == ascii_lower(window[k]));
        assert('\0' <= mark[k] <= '\u{7f}');
    }
}

/// Text without angle brackets holds no HTML mark.
pub proof fn law_no_mark_without_brackets(s: Seq<char>)
    requires
        no_brackets(s),
    ensures
        !has_html_mark(s),
        !has_html_mark(ascii_lowered(s)),
{
    let lower = ascii_lowered(s);
    assert(no_brackets(lower)) by {
        assert forall|i: int| 0 <= i < lower.len() implies #[trigger] lower[i] != '<' && lower[i]
            != '>' by {
            assert(lower[i] == ascii_lower(s[i]));
        }
    }
    lemma_no_mark(s);
    lemma_no_mark(lower);
}

proof fn lemma_no_mark(s: Seq<char>)
    requires
        !s.contains('<'),
    ensures
        !has_html_mark(s),
{
    lemma_marks();
    if has_html_mark(s) {
        let i = choose|i: int|
            0 <= i < html_patterns().len() && has_text(s, #[trigger] html_patterns()[i]);
        let mark = html_patterns()[i];
        let at = choose|at: int| #[trigger] occurs_at(s, mark, at);
        assert(s.subrange(at, at + mark.len())[0] == s[at]);
        assert(s.contains(s[at]));
    }
}

/// Text that holds an HTML mark holds it whatever stands around the text, and
/// so it does once the ASCII letters are in lower case.
pub proof fn law_mark_stays_in_wider_text(before: Seq<char>, s: Seq<char>, after: Seq<char>)
    ensures
        has_html_mark(s) ==> has_html_mark(before + s + after),
        has_html_mark(ascii_lowered(s)) ==> has_html_mark(ascii_lowered(before + s + after)),
{
    lemma_mark_in_wider_text(before, s, after);
    lemma_mark_in_wider_text(ascii_lowered(before), ascii_lowered(s), ascii_lowered(after));
    assert(ascii_lowered(before + s + after) =~= ascii_lowered(before) + ascii_lowered(s)
        + ascii_lowered(after));
}

proof fn lemma_mark_in_wider_text(before: Seq<char>, s: Seq<char>, after: Seq<char>)
    ensures
        has_html_mark(s) ==> has_html_mark(before + s + after),
{
    if has_html_mark(s) {
        let wide = before + s + after;
        let i = choose|i: int|
            0 <= i < html_patterns().len() && has_text(s, #[trigger] html_patterns()[i]);
        let mark = html_patterns()[i];
        let at = choose|at: int| #[trigger] occurs_at(s, mark, at);
        let there = before.len() + at;
        assert(wide.subrange(there, there + mark.len()) =~= s.subrange(at, at + mark.len()));
        assert(occurs_at(wide, mark, there));
        assert(has_text(wide, html_patterns()[i]));
    }
}

/// The character that `c` is in upper case, if it is an ASCII letter, or `c`.
pub open spec fn ascii_upper(c: char) -> char {
    if 'a' <= c <= 'z' {
        ((c as u8) - 32) as char
    } else {
        c
    }
}

/// `s` with its ASCII letters in upper case.
pub open spec fn ascii_uppered(s: Seq<char>) -> Seq<char> {
    s.map_values(|c: char| ascii_upper(c))
}

/// ASCII text counts as HTML in upper case exactly if it does as it is.
pub proof fn law_case_does_not_matter(s: Seq<char>)
    requires
        is_ascii_chars(s),
    ensures
        is_ascii_chars(ascii_uppered(s)),
        has_html_mark(ascii_lowered(ascii_uppered(s))) == has_html_mark(ascii_lowered(s)),
{
    assert forall|i: int| 0 <= i < s.len() implies '\0' <= #[trigger] ascii_uppered(s)[i]
        <= '\u{7f}' by {
        assert(ascii_uppered(s)[i] == ascii_upper(s[i]));
    }
    assert(ascii_lowered(ascii_uppered(s)) =~= ascii_lowered(s));
}

proof fn lemma_tags_go_on(a: Seq<char>, b: Seq<char>, rest: Seq<char>)
    requires
        in_tag(a) == in_tag(b),
        outside_tags(a) == outside_tags(b),
    ensures
        in_tag(a + rest) == in_tag(b + rest),
        outside_tags(a + rest) == outside_tags(b + rest),
    decreases rest.len(),
{
    if rest.len() == 0 {
        assert(a + rest =~= a);
        assert(b + rest =~= b);
    } else {
        lemma_tags_go_on(a, b, rest.drop_last());
        assert((a + rest).drop_last() =~= a + rest.drop_last());
        assert((b + rest).drop_last() =~= b + rest.drop_last());
        assert((a + rest).last() == rest.last());
        assert((b + rest).last() == rest.last());
    }
}

proof fn lemma_inside_tag(a: Seq<char>, inner: Seq<char>)
    requires
        in_tag(a),
        !inner.contains('>'),
    ensures
        in_tag(a + inner),
        outside_tags(a + inner) == outside_tags(a),
    decreases inner.len(),
{
    if inner.len() == 0 {
        assert(a + inner =~= a);
    } else {
        let front = inner.drop_last();
        assert forall|i: int| 0 <= i < front.len() implies front[i] != '>' by {
            assert(front[i] == inner[i]);
        }
        lemma_inside_tag(a, front);
        assert((a + inner).drop_last() =~= a + front);
        assert((a + inner).last() == inner[inner.len() - 1]);
    }
}

/// A tag that is put in where no tag is open changes nothing in the plain text.
pub proof fn law_tags_leave_no_trace(before: Seq<char>, inner: Seq<char>, after: Seq<char>)
    requires
        !in_tag(before),
        !inner.contains('>'),
    ensures
        outside_tags(before + "<"@ + inner + ">"@ + after) == outside_tags(before + after),
        stripped(before + "<"@ + inner + ">"@ + after) == stripped(before + after),
{
    reveal_strlit("<");
    reveal_strlit(">");
    let opened = before + "<"@;
    assert(opened.drop_last() =~= before);
    assert(opened.last() == '<');
    lemma_inside_tag(opened, inner);
    let closed = opened + inner + ">"@;
    assert(closed.drop_last() =~= opened + inner);
    assert(closed.last() == '>');
    lemma_tags_go_on(closed, before, after);
}

/// Every character of `s` satisfies `p`.
spec fn all_chars(s: Seq<char>, p: spec_fn(char) -> bool) -> bool {
    forall|i: int| 0 <= i < s.len() ==> p(#[trigger] s[i])
}

/// Neither an ampersand nor an angle bracket.
spec fn ordinary() -> spec_fn(char) -> bool {
    |c: char| c != '&' && c != '<' && c != '>'
}

proof fn lemma_outside_tags_ordinary(s: Seq<char>)
    requires
        !s.contains('&'),
    ensures
        all_chars(outside_tags(s), ordinary()),
    decreases s.len(),
{
    if s.len() > 0 {
        let front = s.drop_last();
        assert forall|i: int| 0 <= i < front.len() implies front[i] != '&' by {
            assert(front[i] == s[i]);
        }
        lemma_outside_tags_ordinary(front);
        assert(s.last() == s[s.len() - 1]);
    }
}

proof fn lemma_collapsed_all(s: Seq<char>, p: spec_fn(char) -> bool)
    requires
        all_chars(s, p),
    ensures
        all_chars(collapsed(s), p),
    decreases s.len(),
{
    if s.len() > 0 {
        let front = s.drop_last();
        assert(all_chars(front, p)) by {
            assert forall|i: int| 0 <= i < front.len() implies p(#[trigger] front[i]) by {
                assert(front[i] == s[i]);
            }
        }
        lemma_collapsed_all(front, p);
        assert(p(s[s.len() - 1]));
    }
}

proof fn lemma_drop_leading_all(s: Seq<char>, q: spec_fn(char) -> bool, p: spec_fn(char) -> bool)
    requires
        all_chars(s, p),
    ensures
        all_chars(drop_leading(s, q), p),
    decreases s.len(),
{
    if s.len() > 0 && q(s[0]) {
        let rest = s.skip(1);
        assert forall|i: int| 0 <= i < rest.len() implies p(#[trigger] rest[i]) by {
            assert(rest[i] == s[i + 1]);
        }
        lemma_drop_leading_all(rest, q, p);
    }
}

proof fn lemma_drop_trailing_all(s: Seq<char>, q: spec_fn(char) -> bool, p: spec_fn(char) -> bool)
    requires
        all_chars(s, p),
    ensures
        all_chars(drop_trailing(s, q), p),
    decreases s.len(),
{
    if s.len() > 0 && q(s.last()) {
        let front = s.drop_last();
        assert forall|i: int| 0 <= i < front.len() implies p(#[trigger] front[i]) by {
            assert(front[i] == s[i]);
        }
        lemma_drop_trailing_all(front, q, p);
    }
}

/// Of text without ampersands, the plain text is its own plain text: stripping
/// twice is stripping once.
pub proof fn law_stripping_twice_is_stripping_once(html: Seq<char>)
    requires
        !html.contains('&'),
    ensures
        stripped(stripped(html)) == stripped(html),
{
    let p = ordinary();
    let space_test = |c: char| is_space(c);
    let bare = outside_tags(html);
    lemma_outside_tags_ordinary(html);
    assert(!bare.contains('&')) by {
        assert forall|i: int| 0 <= i < bare.len() implies bare[i] != '&' by {
            assert(p(bare[i]));
        }
    }
    lemma_decoded_kept(bare);
    lemma_collapsed_all(bare, p);
    lemma_drop_leading_all(collapsed(bare), space_test, p);
    lemma_drop_trailing_all(drop_leading(collapsed(bare), space_test), space_test, p);
    let plain = stripped(html);
    assert(all_chars(plain, p));
    assert forall|i: int| 0 <= i < plain.len() implies #[trigger] plain[i] != '<' && plain[i] != '>'
        && plain[i] != '&' by {
        assert(p(plain[i]));
    }
    law_stripped_is_tidy(html);
    law_plain_text_is_kept(plain);
}

/// A text counts as HTML exactly if one of these tags, or the start of a link
/// or an image, stands in it.
pub proof fn law_these_marks_make_html(s: Seq<char>)
    ensures
        has_html_mark(s) <==> {
            ||| has_text(s, "<b>"@)
            ||| has_text(s, "</b>"@)
            ||| has_text(s, "<i>"@)
            ||| has_text(s, "</i>"@)
            ||| has_text(s, "<u>"@)
            ||| has_text(s, "</u>"@)
            ||| has_text(s, "<strong>"@)
            ||| has_text(s, "</strong>"@)
            ||| has_text(s, "<em>"@)
            ||| has_text(s, "</em>"@)
            ||| has_text(s, "<del>"@)
            ||| has_text(s, "</del>"@)
            ||| has_text(s, "<code>"@)
            ||| has_text(s, "</code>"@)
            ||| has_text(s, "<pre>"@)
            ||| has_text(s, "</pre>"@)
            ||| has_text(s, "<a href"@)
            ||| has_text(s, "</a>"@)
            ||| has_text(s, "<blockquote>"@)
            ||| has_text(s, "</blockquote>"@)
            ||| has_text(s, "<h1>"@)
            ||| has_text(s, "</h1>"@)
            ||| has_text(s, "<h2>"@)
            ||| has_text(s, "</h2>"@)
            ||| has_text(s, "<h3>"@)
            ||| has_text(s, "</h3>"@)
            ||| has_text(s, "<h4>"@)
            ||| has_text(s, "</h4>"@)
            ||| has_text(s, "<h5>"@)
            ||| has_text(s, "</h5>"@)
            ||| has_text(s, "<h6>"@)
            ||| has_text(s, "</h6>"@)
            ||| has_text(s, "<ul>"@)
            ||| has_text(s, "</ul>"@)
            ||| has_text(s, "<ol>"@)
            ||| has_text(s, "</ol>"@)
            ||| has_text(s, "<li>"@)
            ||| has_text(s, "</li>"@)
            ||| has_text(s, "<table>"@)
            ||| has_text(s, "</table>"@)
            ||| has_text(s, "<thead>"@)
            ||| has_text(s, "</thead>"@)
            ||| has_text(s, "<tbody>"@)
            ||| has_text(s, "</tbody>"@)
            ||| has_text(s, "<tr>"@)
            ||| has_text(s, "</tr>"@)
            ||| has_text(s, "<th>"@)
            ||| has_text(s, "</th>"@)
            ||| has_text(s, "<td>"@)
            ||| has_text(s, "</td>"@)
            ||| has_text(s, "<p>"@)
            ||| has_text(s, "</p>"@)
            ||| has_text(s, "<br>"@)
            ||| has_text(s, "<hr>"@)
            ||| has_text(s, "<img"@)
            ||| has_text(s, "<details>"@)
            ||| has_text(s, "</details>"@)
            ||| has_text(s, "<summary>"@)
            ||| has_text(s, "</summary>"@)
        },
{
    let marks = html_patterns();
    assert(marks.len() == 59);
    assert(marks[0] == "<b>"@);
    assert(marks[1] == "</b>"@);
    assert(marks[2] == "<i>"@);
    assert(marks[3] == "</i>"@);
    assert(marks[4] == "<u>"@);
    assert(marks[5] == "</u>"@);
    assert(marks[6] == "<strong>"@);
    assert(marks[7] == "</strong>"@);
    assert(marks[8] == "<em>"@);
    assert(marks[9] == "</em>"@);
    assert(marks[10] == "<del>"@);
    assert(marks[11] == "</del>"@);
    assert(marks[12] == "<code>"@);
    assert(marks[13] == "</code>"@);
    assert(marks[14] == "<pre>"@);
    assert(marks[15] == "</pre>"@);
    assert(marks[16] == "<a href"@);
    assert(marks[17] == "</a>"@);
    assert(marks[18] == "<blockquote>"@);
    assert(marks[19] == "</blockquote>"@);
    assert(marks[20] == "<h1>"@);
    assert(marks[21] == "</h1>"@);
    assert(marks[22] == "<h2>"@);
    assert(marks[23] == "</h2>"@);
    assert(marks[24] == "<h3>"@);
    assert(marks[25] == "</h3>"@);
    assert(marks[26] == "<h4>"@);
    assert(marks[27] == "</h4>"@);
    assert(marks[28] == "<h5>"@);
    assert(marks[29] == "</h5>"@);
    assert(marks[30] == "<h6>"@);
    assert(marks[31] == "</h6>"@);
    assert(marks[32] == "<ul>"@);
    assert(marks[33] == "</ul>"@);
    assert(marks[34] == "<ol>"@);
    assert(marks[35] == "</ol>"@);
    assert(marks[36] == "<li>"@);
    assert(marks[37] == "</li>"@);
    assert(marks[38] == "<table>"@);
    assert(marks[39] == "</table>"@);
    assert(marks[40] == "<thead>"@);
    assert(marks[41] == "</thead>"@);
    assert(marks[42] == "<tbody>"@);
    assert(marks[43] == "</tbody>"@);
    assert(marks[44] == "<tr>"@);
    assert(marks[45] == "</tr>"@);
    assert(marks[46] == "<th>"@);
    assert(marks[47] == "</th>"@);
    assert(marks[48] == "<td>"@);
    assert(marks[49] == "</td>"@);
    assert(marks[50] == "<p>"@);
    assert(marks[51] == "</p>"@);
    assert(marks[52] == "<br>"@);
    assert(marks[53] == "<hr>"@);
    assert(marks[54] == "<img"@);
    assert(marks[55] == "<details>"@);
    assert(marks[56] == "</details>"@);
    assert(marks[57] == "<summary>"@);
    assert(marks[58] == "</summary>"@);
}

/// ASCII capitals become small letters, thirty-two code points up, and nothing
/// else changes.
pub proof fn law_only_capitals_are_lowered(s: Seq<char>, i: int)
    requires
        0 <= i < s.len(),
    ensures
        ascii_lowered(s).len() == s.len(),
        'A' <= s[i] <= 'Z' ==> ascii_lowered(s)[i] as int == s[i] as int + 32,
        !('A' <= s[i] <= 'Z') ==> ascii_lowered(s)[i] == s[i],
{
}

/// Text outside tags is kept, a bracket that closes no tag is dropped, and a
/// tag that is never closed takes all that follows it with it.
pub proof fn law_text_outside_tags_is_kept(before: Seq<char>, s: Seq<char>, after: Seq<char>)
    ensures
        !in_tag(before) && no_brackets(s) ==> outside_tags(before + s) == outside_tags(before)
            + s && !in_tag(before + s),
        !in_tag(before) ==> outside_tags(before + seq!['>'] + after) == outside_tags(
            before + after,
        ),
        !s.contains('>') ==> outside_tags(before + seq!['<'] + s) == outside_tags(before)
            && in_tag(before + seq!['<'] + s),
        !in_tag(before) ==> stripped(before + seq!['>'] + after) == stripped(before + after),
        !s.contains('>') ==> stripped(before + seq!['<'] + s) == stripped(before),
        !in_tag(Seq::<char>::empty()) && outside_tags(Seq::<char>::empty()).len() == 0,
{
    if !in_tag(before) && no_brackets(s) {
        lemma_text_goes_on(before, s);
    }
    if !in_tag(before) {
        let closed = before + seq!['>'];
        assert(closed.drop_last() =~= before);
        assert(closed.last() == '>');
        lemma_tags_go_on(closed, before, after);
    }
    if !s.contains('>') {
        let opened = before + seq!['<'];
        assert(opened.drop_last() =~= before);
        assert(opened.last() == '<');
        lemma_inside_tag(opened, s);
    }
}

proof fn lemma_text_goes_on(before: Seq<char>, s: Seq<char>)
    requires
        !in_tag(before),
        no_brackets(s),
    ensures
        !in_tag(before + s),
        outside_tags(before + s) == outside_tags(before) + s,
    decreases s.len(),
{
    let all = before + s;
    if s.len() == 0 {
        assert(all =~= before);
        assert(outside_tags(before) + s =~= outside_tags(before));
    } else {
        let front = s.drop_last();
        assert forall|i: int| 0 <= i < front.len() implies #[trigger] front[i] != '<' && front[i]
            != '>' by {
            assert(front[i] == s[i]);
        }
        lemma_text_goes_on(before, front);
        assert(all.drop_last() =~= before + front);
        assert(all.last() == s[s.len() - 1]);
        assert(outside_tags(all) =~= outside_tags(before) + s);
    }
}

/// Of two white space characters next to each other the first stays; text
/// without such a pair is kept.
pub proof fn law_white_space_is_collapsed(before: Seq<char>, c: char, d: char, after: Seq<char>)
    ensures
        is_space(c) && is_space(d) ==> collapsed(before + seq![c, d] + after) == collapsed(
            before + seq![c] + after,
        ),
        single_spaced(before) ==> collapsed(before) == before,
        is_space(c) && is_space(d) && no_brackets(before + after) && !(before + after).contains(
            '&',
        ) ==> stripped(before + seq![c, d] + after) == stripped(before + seq![c] + after),
    decreases after.len(),
{
    if single_spaced(before) {
        lemma_collapsed_kept(before);
    }
    if is_space(c) && is_space(d) {
        lemma_pair_collapsed(before, c, d, after);
        let both = before + after;
        if no_brackets(both) && !both.contains('&') {
            let wide = before + seq![c, d] + after;
            let slim = before + seq![c] + after;
            let n = before.len() as int;
            assert forall|i: int| 0 <= i < wide.len() implies #[trigger] wide[i] != '<' && wide[i]
                != '>' && wide[i] != '&' by {
                if i < n {
                    assert(wide[i] == both[i]);
                } else if i >= n + 2 {
                    assert(wide[i] == both[i - 2]);
                }
            }
            assert forall|i: int| 0 <= i < slim.len() implies #[trigger] slim[i] != '<' && slim[i]
                != '>' && slim[i] != '&' by {
                if i < n {
                    assert(slim[i] == both[i]);
                } else if i >= n + 1 {
                    assert(slim[i] == both[i - 1]);
                }
            }
            lemma_outside_tags_kept(wide);
            lemma_outside_tags_kept(slim);
            lemma_decoded_kept(wide);
            lemma_decoded_kept(slim);
        }
    }
}

proof fn lemma_pair_collapsed(before: Seq<char>, c: char, d: char, after: Seq<char>)
    requires
        is_space(c),
        is_space(d),
    ensures
        collapsed(before + seq![c, d] + after) == collapsed(before + seq![c] + after),
    decreases after.len(),
{
    let wide = before + seq![c, d] + after;
    let slim = before + seq![c] + after;
    if after.len() == 0 {
        assert(wide.drop_last() =~= slim);
        assert(wide[wide.len() - 2] == c);
    } else {
        let front = after.drop_last();
        assert(wide.drop_last() =~= before + seq![c, d] + front);
        assert(slim.drop_last() =~= before + seq![c] + front);
        lemma_pair_collapsed(before, c, d, front);
        assert(wide.last() == after.last());
        assert(slim.last() == after.last());
        if after.len() >= 2 {
            assert(wide[wide.len() - 2] == after[after.len() - 2]);
            assert(slim[slim.len() - 2] == after[after.len() - 2]);
        } else {
            assert(wide[wide.len() - 2] == d);
            assert(slim[slim.len() - 2] == c);
        }
    }
}

proof fn lemma_collapsed_after(c: char, s: Seq<char>)
    requires
        is_space(c),
    ensures
        s.len() > 0 ==> collapsed(s).len() > 0 && collapsed(s)[0] == s[0],
        collapsed(seq![c] + s) == seq![c] + if s.len() > 0 && is_space(s[0]) {
            collapsed(s).skip(1)
        } else {
            collapsed(s)
        },
    decreases s.len(),
{
    let all = seq![c] + s;
    if s.len() == 0 {
        assert(all.drop_last().len() == 0);
        assert(collapsed(all.drop_last()).len() == 0);
        assert(collapsed(all) =~= seq![c]);
        assert(seq![c] + collapsed(s) =~= seq![c]);
    } else {
        let front = s.drop_last();
        lemma_collapsed_after(c, front);
        assert(all.drop_last() =~= seq![c] + front);
        assert(all.last() == s.last());
        if s.len() == 1 {
            assert(front =~= Seq::<char>::empty());
            assert(collapsed(front).len() == 0);
            assert(collapsed(s) =~= s);
            assert(all[0] == c);
            assert(s.skip(1) =~= Seq::<char>::empty());
            assert(collapsed(seq![c] + front) =~= seq![c]);
            if is_space(s[0]) {
                assert(collapsed(all) =~= seq![c] + collapsed(s).skip(1));
            } else {
                assert(collapsed(all) =~= seq![c] + collapsed(s));
            }
        } else {
            assert(front[0] == s[0]);
            assert(all[all.len() - 2] == s[s.len() - 2]);
            if is_space(s.last()) && is_space(s[s.len() - 2]) {
            } else if is_space(s[0]) {
                assert(collapsed(front).push(s.last()).skip(1) =~= collapsed(front).skip(1).push(
                    s.last(),
                ));
                assert(collapsed(all) =~= seq![c] + collapsed(s).skip(1));
            } else {
                assert(collapsed(all) =~= seq![c] + collapsed(s));
            }
        }
    }
}

proof fn lemma_trimmed_push(s: Seq<char>, c: char)
    requires
        is_space(c),
    ensures
        trimmed(s.push(c)) == trimmed(s),
{
    let p = |c: char| is_space(c);
    lemma_drop_leading_push(s, c, p);
    let rest = drop_leading(s, p);
    if rest.len() > 0 {
        assert(rest.push(c).drop_last() =~= rest);
    }
}

proof fn lemma_drop_leading_push(s: Seq<char>, c: char, p: spec_fn(char) -> bool)
    requires
        p(c),
    ensures
        drop_leading(s.push(c), p) == if drop_leading(s, p).len() > 0 {
            drop_leading(s, p).push(c)
        } else {
            seq![]
        },
    decreases s.len(),
{
    let all = s.push(c);
    if s.len() == 0 {
        assert(all.skip(1).len() == 0);
        assert(drop_leading(all.skip(1), p) =~= seq![]);
    } else if p(s[0]) {
        assert(all[0] == s[0]);
        assert(all.skip(1) =~= s.skip(1).push(c));
        lemma_drop_leading_push(s.skip(1), c, p);
    } else {
        assert(all[0] == s[0]);
    }
}

/// White space at either end of a text without tags and entities leaves no
/// trace in the plain text.
pub proof fn law_outer_white_space_leaves_no_trace(c: char, s: Seq<char>)
    requires
        is_space(c),
        no_brackets(s),
        !s.contains('&'),
    ensures
        stripped(seq![c] + s) == stripped(s),
        stripped(s + seq![c]) == stripped(s),
{
    let p = |c: char| is_space(c);
    let left = seq![c] + s;
    let right = s + seq![c];
    assert forall|i: int| 0 <= i < left.len() implies #[trigger] left[i] != '<' && left[i] != '>'
        && left[i] != '&' by {
        if i > 0 {
            assert(left[i] == s[i - 1]);
        }
    }
    assert forall|i: int| 0 <= i < right.len() implies #[trigger] right[i] != '<' && right[i]
        != '>' && right[i] != '&' by {
        if i < s.len() {
            assert(right[i] == s[i]);
        }
    }
    lemma_outside_tags_kept(s);
    lemma_outside_tags_kept(left);
    lemma_outside_tags_kept(right);
    lemma_decoded_kept(s);
    lemma_decoded_kept(left);
    lemma_decoded_kept(right);
    assert(right.drop_last() =~= s);
    lemma_trimmed_push(collapsed(s), c);
    lemma_collapsed_after(c, s);
    assert(collapsed(left)[0] == c);
    if s.len() > 0 && is_space(s[0]) {
        assert(collapsed(left).skip(1) =~= collapsed(s).skip(1));
    } else {
        assert(collapsed(left).skip(1) =~= collapsed(s));
    }
}

} // verus!
