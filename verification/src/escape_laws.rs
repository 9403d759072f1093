//! How escaping text for HTML and reducing HTML to plain text go together.

use crate::html::{
    ascii_lowered, collapsed, decoded, escaped, escaped_char, has_html_mark,
    law_no_mark_without_brackets, lemma_collapsed_kept, lemma_outside_tags_kept, no_brackets,
    no_outer_space, outside_tags, single_spaced, stripped,
};
use crate::text::{has_text, occurs_at, replaced, trimmed};
use vstd::prelude::*;
use vstd::utf8::is_ascii_chars;

verus! {

/// `s` with every character written as `f` says.
spec fn spelled(s: Seq<char>, f: spec_fn(char) -> Seq<char>) -> Seq<char>
    decreases s.len(),
{
    if s.len() == 0 {
        seq![]
    } else {
        f(s[0]) + spelled(s.skip(1), f)
    }
}

/// All three special characters escaped.
spec fn escape_all() -> spec_fn(char) -> Seq<char> {
    |c: char| escaped_char(c)
}

/// Both angle brackets escaped.
spec fn escape_angles() -> spec_fn(char) -> Seq<char> {
    |c: char|
        if c == '<' {
            "&lt;"@
        } else if c == '>' {
            "&gt;"@
        } else {
            seq![c]
        }
}

/// The closing bracket escaped.
spec fn escape_close() -> spec_fn(char) -> Seq<char> {
    |c: char|
        if c == '>' {
            "&gt;"@
        } else {
            seq![c]
        }
}

/// Nothing escaped.
spec fn escape_none() -> spec_fn(char) -> Seq<char> {
    |c: char| seq![c]
}

proof fn lemma_spelled_push(s: Seq<char>, c: char, f: spec_fn(char) -> Seq<char>)
    ensures
        spelled(s.push(c), f) == spelled(s, f) + f(c),
    decreases s.len(),
{
    if s.len() == 0 {
        assert(s.push(c).skip(1) =~= Seq::<char>::empty());
        assert(spelled(s.push(c).skip(1), f) =~= Seq::<char>::empty());
        assert(spelled(s.push(c), f) =~= f(c));
        assert(spelled(s, f) + f(c) =~= f(c));
    } else {
        assert(s.push(c).skip(1) =~= s.skip(1).push(c));
        lemma_spelled_push(s.skip(1), c, f);
        assert(f(s[0]) + (spelled(s.skip(1), f) + f(c)) =~= (f(s[0]) + spelled(s.skip(1), f)) + f(
            c,
        ));
    }
}

proof fn lemma_escaped_spelled(s: Seq<char>)
    ensures
        escaped(s) == spelled(s, escape_all()),
    decreases s.len(),
{
    if s.len() > 0 {
        lemma_escaped_spelled(s.drop_last());
        lemma_spelled_push(s.drop_last(), s.last(), escape_all());
        assert(s.drop_last().push(s.last()) =~= s);
    }
}

proof fn lemma_spelled_none(s: Seq<char>)
    ensures
        spelled(s, escape_none()) == s,
    decreases s.len(),
{
    if s.len() > 0 {
        lemma_spelled_none(s.skip(1));
        assert(seq![s[0]] + s.skip(1) =~= s);
    }
}

/// Replacing passes over a start in which nothing to replace begins.
pub(crate) proof fn lemma_replaced_skips(
    p: Seq<char>,
    rest: Seq<char>,
    from: Seq<char>,
    to: Seq<char>,
)
    requires
        from.len() > 0,
        forall|i: int| 0 <= i < p.len() ==> !occurs_at(p + rest, from, i),
    ensures
        replaced(p + rest, from, to) == p + replaced(rest, from, to),
    decreases p.len(),
{
    let s = p + rest;
    if p.len() == 0 {
        assert(s =~= rest);
        assert(p + replaced(rest, from, to) =~= replaced(rest, from, to));
    } else if s.len() < from.len() {
    } else {
        assert(!occurs_at(s, from, 0));
        assert(s.subrange(0, from.len() as int) =~= s.take(from.len() as int));
        let q = p.skip(1);
        assert(s.skip(1) =~= q + rest);
        assert forall|i: int| 0 <= i < q.len() implies !occurs_at(q + rest, from, i) by {
            assert(!occurs_at(s, from, i + 1));
            if i + from.len() <= (q + rest).len() {
                assert((q + rest).subrange(i, i + from.len()) =~= s.subrange(
                    i + 1,
                    i + 1 + from.len(),
                ));
            }
        }
        lemma_replaced_skips(q, rest, from, to);
        assert(seq![s[0]] + (q + replaced(rest, from, to)) =~= p + replaced(rest, from, to));
    }
}

/// Replacing takes off what it finds at the start.
pub(crate) proof fn lemma_replaced_takes(rest: Seq<char>, from: Seq<char>, to: Seq<char>)
    requires
        from.len() > 0,
    ensures
        replaced(from + rest, from, to) == to + replaced(rest, from, to),
{
    assert((from + rest).take(from.len() as int) =~= from);
    assert((from + rest).skip(from.len() as int) =~= rest);
}

/// Replacing leaves a text alone in which there is nothing to replace.
pub(crate) proof fn lemma_replaced_absent(s: Seq<char>, from: Seq<char>, to: Seq<char>)
    requires
        from.len() > 0,
        !has_text(s, from),
    ensures
        replaced(s, from, to) == s,
{
    let none = Seq::<char>::empty();
    assert(s + none =~= s);
    lemma_replaced_skips(s, none, from, to);
    assert(s + replaced(none, from, to) =~= s);
}

/// No entity begins where its first character does not stand.
proof fn lemma_not_at(s: Seq<char>, from: Seq<char>, i: int)
    requires
        0 <= i < s.len(),
        from.len() > 0,
        s[i] != from[0],
    ensures
        !occurs_at(s, from, i),
{
    if i + from.len() <= s.len() {
        assert(s.subrange(i, i + from.len())[0] == s[i]);
    }
}

/// Where an entity begins, its second character stands next.
proof fn lemma_not_at_second(s: Seq<char>, from: Seq<char>, i: int)
    requires
        0 <= i,
        i + 1 < s.len(),
        from.len() > 1,
        s[i + 1] != from[1],
    ensures
        !occurs_at(s, from, i),
{
    if i + from.len() <= s.len() {
        assert(s.subrange(i, i + from.len())[1] == s[i + 1]);
    }
}

/// What a spelled text starts with, as long as that holds no `&`, the text
/// itself starts with.
proof fn lemma_spelled_start(s: Seq<char>, f: spec_fn(char) -> Seq<char>, p: Seq<char>)
    requires
        !p.contains('&'),
        forall|c: char| #[trigger] f(c) == seq![c] || f(c)[0] == '&' && f(c).len() > 0,
        spelled(s, f).len() >= p.len(),
        spelled(s, f).take(p.len() as int) == p,
    ensures
        s.len() >= p.len(),
        s.take(p.len() as int) == p,
    decreases s.len(),
{
    if p.len() == 0 {
        assert(s.take(0) =~= p);
    } else {
        let t = spelled(s, f);
        assert(s.len() > 0);
        assert(t.take(p.len() as int)[0] == p[0]);
        assert(p[0] != '&');
        assert(f(s[0]) == seq![s[0]]);
        assert(t =~= seq![s[0]] + spelled(s.skip(1), f));
        let q = p.skip(1);
        assert forall|i: int| 0 <= i < q.len() implies q[i] != '&' by {
            assert(q[i] == p[i + 1]);
        }
        let rest = spelled(s.skip(1), f);
        assert(rest.take(q.len() as int) =~= q) by {
            assert forall|i: int| 0 <= i < q.len() implies rest[i] == q[i] by {
                assert(t.take(p.len() as int)[i + 1] == p[i + 1]);
                assert(t[i + 1] == rest[i]);
            }
        }
        lemma_spelled_start(s.skip(1), f, q);
        assert(s.take(p.len() as int) =~= p) by {
            assert forall|i: int| 0 <= i < p.len() implies s[i] == p[i] by {
                if i > 0 {
                    assert(s.skip(1).take(q.len() as int)[i - 1] == q[i - 1]);
                }
            }
        }
    }
}

/// An ordinary character begins no entity unless one stands in the text.
proof fn lemma_no_entity_at_start(s: Seq<char>, f: spec_fn(char) -> Seq<char>, e: Seq<char>)
    requires
        s.len() > 0,
        f(s[0]) == seq![s[0]],
        forall|c: char| #[trigger] f(c) == seq![c] || f(c)[0] == '&' && f(c).len() > 0,
        e.len() > 0,
        !e.skip(1).contains('&'),
        !has_text(s, e),
    ensures
        !occurs_at(spelled(s, f), e, 0),
{
    let t = spelled(s, f);
    let rest = spelled(s.skip(1), f);
    assert(t =~= seq![s[0]] + rest);
    if occurs_at(t, e, 0) {
        let p = e.skip(1);
        assert(t.subrange(0, e.len() as int)[0] == s[0]);
        assert(rest.take(p.len() as int) =~= p) by {
            assert forall|i: int| 0 <= i < p.len() implies rest[i] == p[i] by {
                assert(t.subrange(0, e.len() as int)[i + 1] == e[i + 1]);
            }
        }
        lemma_spelled_start(s.skip(1), f, p);
        assert(s.subrange(0, e.len() as int) =~= e) by {
            assert forall|i: int| 0 <= i < e.len() implies s[i] == e[i] by {
                if i > 0 {
                    assert(s.skip(1).take(p.len() as int)[i - 1] == p[i - 1]);
                }
            }
        }
        assert(occurs_at(s, e, 0));
    }
}

proof fn lemma_absent_in_rest(s: Seq<char>, e: Seq<char>)
    requires
        s.len() > 0,
        !has_text(s, e),
    ensures
        !has_text(s.skip(1), e),
{
    if has_text(s.skip(1), e) {
        let i = choose|i: int| occurs_at(s.skip(1), e, i);
        assert(s.skip(1).subrange(i, i + e.len()) =~= s.subrange(i + 1, i + 1 + e.len()));
        assert(occurs_at(s, e, i + 1));
    }
}

proof fn lemma_decode_amp(s: Seq<char>)
    ensures
        replaced(spelled(s, escape_all()), "&amp;"@, "&"@) == spelled(s, escape_angles()),
    decreases s.len(),
{
    reveal_strlit("&amp;");
    reveal_strlit("&lt;");
    reveal_strlit("&gt;");
    reveal_strlit("&");
    if s.len() > 0 {
        let rest = spelled(s.skip(1), escape_all());
        let p = escaped_char(s[0]);
        lemma_decode_amp(s.skip(1));
        if s[0] == '&' {
            lemma_replaced_takes(rest, "&amp;"@, "&"@);
            assert("&"@ =~= seq!['&']);
        } else {
            assert forall|i: int| 0 <= i < p.len() implies !occurs_at(p + rest, "&amp;"@, i) by {
                if i == 0 && (s[0] == '<' || s[0] == '>') {
                    lemma_not_at_second(p + rest, "&amp;"@, 0);
                } else {
                    lemma_not_at(p + rest, "&amp;"@, i);
                }
            }
            lemma_replaced_skips(p, rest, "&amp;"@, "&"@);
        }
    } else {
        assert(replaced(spelled(s, escape_all()), "&amp;"@, "&"@) =~= Seq::<char>::empty());
    }
}

proof fn lemma_decode_lt(s: Seq<char>)
    requires
        !has_text(s, "&lt;"@),
    ensures
        replaced(spelled(s, escape_angles()), "&lt;"@, "<"@) == spelled(s, escape_close()),
    decreases s.len(),
{
    reveal_strlit("&lt;");
    reveal_strlit("&gt;");
    reveal_strlit("<");
    if s.len() > 0 {
        let f = escape_angles();
        let rest = spelled(s.skip(1), f);
        let p = f(s[0]);
        lemma_absent_in_rest(s, "&lt;"@);
        lemma_decode_lt(s.skip(1));
        if s[0] == '<' {
            lemma_replaced_takes(rest, "&lt;"@, "<"@);
            assert("<"@ =~= seq!['<']);
        } else {
            assert forall|i: int| 0 <= i < p.len() implies !occurs_at(p + rest, "&lt;"@, i) by {
                if s[0] == '>' {
                    if i == 0 {
                        lemma_not_at_second(p + rest, "&lt;"@, 0);
                    } else {
                        lemma_not_at(p + rest, "&lt;"@, i);
                    }
                } else {
                    lemma_no_entity_at_start(s, f, "&lt;"@);
                }
            }
            lemma_replaced_skips(p, rest, "&lt;"@, "<"@);
        }
    } else {
        assert(replaced(spelled(s, escape_angles()), "&lt;"@, "<"@) =~= Seq::<char>::empty());
    }
}

proof fn lemma_decode_gt(s: Seq<char>)
    requires
        !has_text(s, "&gt;"@),
    ensures
        replaced(spelled(s, escape_close()), "&gt;"@, ">"@) == spelled(s, escape_none()),
    decreases s.len(),
{
    reveal_strlit("&gt;");
    reveal_strlit(">");
    if s.len() > 0 {
        let f = escape_close();
        let rest = spelled(s.skip(1), f);
        let p = f(s[0]);
        lemma_absent_in_rest(s, "&gt;"@);
        lemma_decode_gt(s.skip(1));
        if s[0] == '>' {
            lemma_replaced_takes(rest, "&gt;"@, ">"@);
            assert(">"@ =~= seq!['>']);
        } else {
            assert forall|i: int| 0 <= i < p.len() implies !occurs_at(p + rest, "&gt;"@, i) by {
                lemma_no_entity_at_start(s, f, "&gt;"@);
            }
            lemma_replaced_skips(p, rest, "&gt;"@, ">"@);
        }
    } else {
        assert(replaced(spelled(s, escape_close()), "&gt;"@, ">"@) =~= Seq::<char>::empty());
    }
}

/// No angle bracket is left in escaped text.
pub proof fn law_escaped_has_no_brackets(s: Seq<char>)
    ensures
        no_brackets(escaped(s)),
    decreases s.len(),
{
    reveal_strlit("&amp;");
    reveal_strlit("&lt;");
    reveal_strlit("&gt;");
    if s.len() > 0 {
        law_escaped_has_no_brackets(s.drop_last());
        let head = escaped(s.drop_last());
        let e = escaped_char(s.last());
        assert forall|i: int| 0 <= i < (head + e).len() implies #[trigger] (head + e)[i] != '<' && (
        head + e)[i] != '>' by {
            if i < head.len() {
                assert((head + e)[i] == head[i]);
            } else {
                assert((head + e)[i] == e[i - head.len()]);
            }
        }
    }
}

/// Text in which none of the entities but `&amp;` is spelled out is read back
/// from its escaped form, up to white space.
pub proof fn law_escaped_text_is_read_back(s: Seq<char>)
    requires
        !has_text(s, "&lt;"@),
        !has_text(s, "&gt;"@),
        !has_text(s, "&quot;"@),
        !has_text(s, "&#39;"@),
        !has_text(s, "&nbsp;"@),
    ensures
        decoded(outside_tags(escaped(s))) == s,
        stripped(escaped(s)) == trimmed(collapsed(s)),
{
    reveal_strlit("&quot;");
    reveal_strlit("&#39;");
    reveal_strlit("&nbsp;");
    law_escaped_has_no_brackets(s);
    lemma_outside_tags_kept(escaped(s));
    lemma_escaped_spelled(s);
    lemma_decode_amp(s);
    lemma_decode_lt(s);
    lemma_decode_gt(s);
    lemma_spelled_none(s);
    lemma_replaced_absent(s, "&quot;"@, "\""@);
    lemma_replaced_absent(s, "&#39;"@, "'"@);
    lemma_replaced_absent(s, "&nbsp;"@, " "@);
}

/// One character written otherwise.
spec fn respell(x: char, e: Seq<char>) -> spec_fn(char) -> Seq<char> {
    |c: char|
        if c == x {
            e
        } else {
            seq![c]
        }
}

proof fn lemma_replace_char(s: Seq<char>, x: char, e: Seq<char>)
    ensures
        replaced(s, seq![x], e) == spelled(s, respell(x, e)),
    decreases s.len(),
{
    if s.len() > 0 {
        lemma_replace_char(s.skip(1), x, e);
        assert(s.take(1) =~= seq![s[0]]);
        assert(seq![s[0]][0] == s[0] && seq![x][0] == x);
    }
}

proof fn lemma_spelled_add(a: Seq<char>, b: Seq<char>, f: spec_fn(char) -> Seq<char>)
    ensures
        spelled(a + b, f) == spelled(a, f) + spelled(b, f),
    decreases a.len(),
{
    if a.len() == 0 {
        assert(a + b =~= b);
        assert(spelled(a, f) + spelled(b, f) =~= spelled(b, f));
    } else {
        assert((a + b).skip(1) =~= a.skip(1) + b);
        lemma_spelled_add(a.skip(1), b, f);
        assert(f(a[0]) + (spelled(a.skip(1), f) + spelled(b, f)) =~= (f(a[0]) + spelled(
            a.skip(1),
            f,
        )) + spelled(b, f));
    }
}

/// A text without the character is not respelled.
proof fn lemma_respell_kept(s: Seq<char>, x: char, e: Seq<char>)
    requires
        !s.contains(x),
    ensures
        spelled(s, respell(x, e)) == s,
    decreases s.len(),
{
    if s.len() > 0 {
        assert(s[0] != x);
        assert forall|i: int| 0 <= i < s.skip(1).len() implies s.skip(1)[i] != x by {
            assert(s.skip(1)[i] == s[i + 1]);
        }
        lemma_respell_kept(s.skip(1), x, e);
        assert(seq![s[0]] + s.skip(1) =~= s);
    }
}

proof fn lemma_respell_one(c: char, x: char, e: Seq<char>)
    ensures
        spelled(seq![c], respell(x, e)) == if c == x {
            e
        } else {
            seq![c]
        },
{
    assert(seq![c].skip(1) =~= Seq::<char>::empty());
    assert(spelled(seq![c].skip(1), respell(x, e)) =~= Seq::<char>::empty());
    assert(spelled(seq![c], respell(x, e)) =~= respell(x, e)(c));
}

/// What becomes of one character when the three are respelled in turn.
proof fn lemma_respell_in_turn(c: char)
    ensures
        spelled(
            spelled(
                spelled(seq![c], respell('&', "&amp;"@)),
                respell('<', "&lt;"@),
            ),
            respell('>', "&gt;"@),
        ) == escaped_char(c),
{
    reveal_strlit("&amp;");
    reveal_strlit("&lt;");
    lemma_respell_one(c, '&', "&amp;"@);
    if c == '&' {
        lemma_respell_kept("&amp;"@, '<', "&lt;"@);
        lemma_respell_kept("&amp;"@, '>', "&gt;"@);
    } else {
        lemma_respell_one(c, '<', "&lt;"@);
        if c == '<' {
            lemma_respell_kept("&lt;"@, '>', "&gt;"@);
        } else {
            lemma_respell_one(c, '>', "&gt;"@);
        }
    }
}

/// Escaping is replacing in turn, the ampersand first.
pub proof fn law_escaping_replaces_in_turn(s: Seq<char>)
    ensures
        escaped(s) == replaced(
            replaced(replaced(s, "&"@, "&amp;"@), "<"@, "&lt;"@),
            ">"@,
            "&gt;"@,
        ),
    decreases s.len(),
{
    reveal_strlit("&");
    reveal_strlit("<");
    reveal_strlit(">");
    assert("&"@ =~= seq!['&']);
    assert("<"@ =~= seq!['<']);
    assert(">"@ =~= seq!['>']);
    let f = respell('&', "&amp;"@);
    let g = respell('<', "&lt;"@);
    let h = respell('>', "&gt;"@);
    let t = spelled(s, f);
    let u = spelled(t, g);
    lemma_replace_char(s, '&', "&amp;"@);
    lemma_replace_char(t, '<', "&lt;"@);
    lemma_replace_char(u, '>', "&gt;"@);
    if s.len() > 0 {
        let front = s.drop_last();
        let last = seq![s.last()];
        assert(s =~= front + last);
        law_escaping_replaces_in_turn(front);
        lemma_replace_char(front, '&', "&amp;"@);
        lemma_replace_char(spelled(front, f), '<', "&lt;"@);
        lemma_replace_char(spelled(spelled(front, f), g), '>', "&gt;"@);
        lemma_spelled_add(front, last, f);
        lemma_spelled_add(spelled(front, f), spelled(last, f), g);
        lemma_spelled_add(spelled(spelled(front, f), g), spelled(spelled(last, f), g), h);
        lemma_respell_in_turn(s.last());
    } else {
        assert(escaped(s) =~= spelled(u, h));
    }
}

/// Escaped text is never taken for HTML: it holds no `<`, and so no HTML mark,
/// as it is or with its ASCII letters in lower case. Of ASCII text the escaped
/// form is ASCII too.
pub proof fn law_escaped_text_is_no_html(s: Seq<char>)
    ensures
        !escaped(s).contains('<'),
        !has_html_mark(escaped(s)),
        !has_html_mark(ascii_lowered(escaped(s))),
        is_ascii_chars(s) ==> is_ascii_chars(escaped(s)),
{
    law_escaped_has_no_brackets(s);
    law_no_mark_without_brackets(escaped(s));
    if is_ascii_chars(s) {
        lemma_escaped_ascii(s);
    }
}

proof fn lemma_escaped_ascii(s: Seq<char>)
    requires
        is_ascii_chars(s),
    ensures
        is_ascii_chars(escaped(s)),
    decreases s.len(),
{
    reveal_strlit("&amp;");
    reveal_strlit("&lt;");
    reveal_strlit("&gt;");
    if s.len() > 0 {
        let front = s.drop_last();
        assert(is_ascii_chars(front)) by {
            assert forall|i: int| 0 <= i < front.len() implies '\0' <= #[trigger] front[i]
                <= '\u{7f}' by {
                assert(front[i] == s[i]);
            }
        }
        lemma_escaped_ascii(front);
        assert(s.last() == s[s.len() - 1]);
        assert(is_ascii_chars(escaped_char(s.last())));
    }
}

/// Text is escaped piece by piece.
pub proof fn law_escaping_goes_piece_by_piece(a: Seq<char>, b: Seq<char>)
    ensures
        escaped(a + b) == escaped(a) + escaped(b),
{
    lemma_escaped_spelled(a);
    lemma_escaped_spelled(b);
    lemma_escaped_spelled(a + b);
    lemma_spelled_add(a, b, escape_all());
}

/// The ampersand and the opening bracket escaped.
spec fn escape_amp_open() -> spec_fn(char) -> Seq<char> {
    |c: char|
        if c == '&' {
            "&amp;"@
        } else if c == '<' {
            "&lt;"@
        } else {
            seq![c]
        }
}

/// The entity `e` does not begin within `w`, whatever follows.
spec fn spelled_apart(w: Seq<char>, e: Seq<char>) -> bool {
    &&& w.len() > 0
    &&& w[0] != '&' || w.len() > 1 && w[1] != e[1]
    &&& forall|k: int| 1 <= k < w.len() ==> w[k] != '&'
}

/// Replacing gives one character back, in text in which every entity begins
/// where a character was written as one.
proof fn lemma_read_back(
    s: Seq<char>,
    f: spec_fn(char) -> Seq<char>,
    g: spec_fn(char) -> Seq<char>,
    x: char,
    e: Seq<char>,
)
    requires
        e.len() > 1,
        e[0] == '&',
        f(x) == e,
        g(x) == seq![x],
        forall|c: char|
            #![trigger f(c)]
            c != x ==> g(c) == f(c) && spelled_apart(f(c), e),
    ensures
        replaced(spelled(s, f), e, seq![x]) == spelled(s, g),
    decreases s.len(),
{
    if s.len() > 0 {
        let rest = spelled(s.skip(1), f);
        let p = f(s[0]);
        lemma_read_back(s.skip(1), f, g, x, e);
        if s[0] == x {
            lemma_replaced_takes(rest, e, seq![x]);
        } else {
            assert forall|i: int| 0 <= i < p.len() implies !occurs_at(p + rest, e, i) by {
                assert((p + rest)[i] == p[i]);
                if i == 0 && p[0] == '&' {
                    assert((p + rest)[1] == p[1]);
                    lemma_not_at_second(p + rest, e, 0);
                } else {
                    lemma_not_at(p + rest, e, i);
                }
            }
            lemma_replaced_skips(p, rest, e, seq![x]);
        }
    } else {
        assert(replaced(spelled(s, f), e, seq![x]) =~= Seq::<char>::empty());
    }
}

/// Escaping can be undone, whatever the text: by replacing back, the ampersand
/// last. So no two texts have the same escaped form.
pub proof fn law_escaping_can_be_undone(s: Seq<char>, t: Seq<char>)
    ensures
        replaced(replaced(replaced(escaped(s), "&gt;"@, ">"@), "&lt;"@, "<"@), "&amp;"@, "&"@) == s,
        escaped(s) == escaped(t) ==> s == t,
{
    lemma_undone(s);
    lemma_undone(t);
}

proof fn lemma_undone(s: Seq<char>)
    ensures
        replaced(replaced(replaced(escaped(s), "&gt;"@, ">"@), "&lt;"@, "<"@), "&amp;"@, "&"@) == s,
{
    reveal_strlit("&amp;");
    reveal_strlit("&lt;");
    reveal_strlit("&gt;");
    reveal_strlit("&");
    reveal_strlit("<");
    reveal_strlit(">");
    assert("&"@ =~= seq!['&']);
    assert("<"@ =~= seq!['<']);
    assert(">"@ =~= seq!['>']);
    lemma_escaped_spelled(s);
    lemma_read_back(s, escape_all(), escape_amp_open(), '>', "&gt;"@);
    lemma_read_back(s, escape_amp_open(), respell('&', "&amp;"@), '<', "&lt;"@);
    lemma_read_back(s, respell('&', "&amp;"@), escape_none(), '&', "&amp;"@);
    lemma_spelled_none(s);
}

/// None of the special characters `&`, `<` and `>` stands in `s`.
pub open spec fn no_specials(s: Seq<char>) -> bool {
    no_brackets(s) && !s.contains('&')
}

/// Escaping keeps exactly the text without special characters as it is.
pub proof fn law_escaping_keeps_ordinary_text(s: Seq<char>)
    ensures
        escaped(s) == s <==> no_specials(s),
{
    lemma_escaped_len(s);
}

proof fn lemma_escaped_len(s: Seq<char>)
    ensures
        no_specials(s) ==> escaped(s) == s,
        !no_specials(s) ==> escaped(s).len() > s.len(),
    decreases s.len(),
{
    reveal_strlit("&amp;");
    reveal_strlit("&lt;");
    reveal_strlit("&gt;");
    if s.len() > 0 {
        let front = s.drop_last();
        let c = s.last();
        lemma_escaped_len(front);
        assert(c == s[s.len() - 1]);
        assert(no_specials(s) <==> no_specials(front) && c != '&' && c != '<' && c != '>') by {
            assert forall|i: int| 0 <= i < front.len() implies front[i] == s[i] by {}
            if no_specials(front) && c != '&' && c != '<' && c != '>' {
                assert forall|i: int| 0 <= i < s.len() implies #[trigger] s[i] != '<' && s[i] != '>'
                    && s[i] != '&' by {
                    if i < front.len() {
                        assert(front[i] == s[i]);
                    }
                }
            }
            if no_specials(s) {
                assert forall|i: int| 0 <= i < front.len() implies #[trigger] front[i] != '<'
                    && front[i] != '>' && front[i] != '&' by {
                    assert(front[i] == s[i]);
                }
            }
        }
        assert(front + seq![c] =~= s);
    } else {
        assert(escaped(s) =~= s);
    }
}

/// `e` is the entity for `c`, `&amp;` aside.
pub open spec fn is_entity_for(e: Seq<char>, c: char) -> bool {
    ||| (e == "&lt;"@ && c == '<')
    ||| (e == "&gt;"@ && c == '>')
    ||| (e == "&quot;"@ && c == '"')
    ||| (e == "&#39;"@ && c == '\'')
    ||| (e == "&nbsp;"@ && c == ' ')
}

/// All but the first step of decoding.
spec fn decoded_further(s: Seq<char>) -> Seq<char> {
    let s = replaced(s, "&lt;"@, "<"@);
    let s = replaced(s, "&gt;"@, ">"@);
    let s = replaced(s, "&quot;"@, "\""@);
    let s = replaced(s, "&#39;"@, "'"@);
    replaced(s, "&nbsp;"@, " "@)
}

/// Replacing an entity passes over text without ampersands.
proof fn lemma_pass(a: Seq<char>, rest: Seq<char>, from: Seq<char>, to: Seq<char>)
    requires
        !a.contains('&'),
        from.len() > 0,
        from[0] == '&',
    ensures
        replaced(a + rest, from, to) == a + replaced(rest, from, to),
{
    let s = a + rest;
    assert forall|i: int| 0 <= i < a.len() implies !occurs_at(s, from, i) by {
        assert(s[i] == a[i]);
        lemma_not_at(s, from, i);
    }
    lemma_replaced_skips(a, rest, from, to);
}

/// Replacing an entity passes over another one.
proof fn lemma_pass_entity(
    a: Seq<char>,
    e: Seq<char>,
    rest: Seq<char>,
    from: Seq<char>,
    to: Seq<char>,
)
    requires
        !a.contains('&'),
        e.len() > 1,
        e[1] != from[1],
        !e.skip(1).contains('&'),
        from.len() > 1,
        from[0] == '&',
    ensures
        replaced(a + e + rest, from, to) == a + e + replaced(rest, from, to),
{
    let p = a + e;
    let s = p + rest;
    let n = a.len() as int;
    assert forall|i: int| 0 <= i < p.len() implies !occurs_at(s, from, i) by {
        if i < n {
            assert(s[i] == a[i]);
            lemma_not_at(s, from, i);
        } else if i == n {
            assert(s[i + 1] == e[1]);
            lemma_not_at_second(s, from, i);
        } else {
            assert(s[i] == e.skip(1)[i - n - 1]);
            lemma_not_at(s, from, i);
        }
    }
    lemma_replaced_skips(p, rest, from, to);
}

/// One step of decoding: it reads the entity `e` if it is the one in turn and
/// was not read before.
proof fn lemma_stage(
    a: Seq<char>,
    e: Seq<char>,
    c: char,
    b: Seq<char>,
    done: bool,
    from: Seq<char>,
    to: Seq<char>,
)
    requires
        !a.contains('&'),
        c != '&',
        e.len() > 1,
        !e.skip(1).contains('&'),
        e == from ==> to == seq![c],
        e != from ==> e[1] != from[1],
        from.len() > 1,
        from[0] == '&',
    ensures
        replaced(
            if done {
                a + seq![c] + b
            } else {
                a + e + b
            },
            from,
            to,
        ) == if done || e == from {
            a + seq![c] + replaced(b, from, to)
        } else {
            a + e + replaced(b, from, to)
        },
{
    let read = a + seq![c];
    assert forall|i: int| 0 <= i < read.len() implies read[i] != '&' by {
        if i < a.len() {
            assert(read[i] == a[i]);
        }
    }
    if done {
        lemma_pass(read, b, from, to);
    } else if e == from {
        assert(a + e + b =~= a + (e + b));
        lemma_pass(a, e + b, from, to);
        lemma_replaced_takes(b, from, to);
        assert(a + (to + replaced(b, from, to)) =~= a + seq![c] + replaced(b, from, to));
    } else {
        lemma_pass_entity(a, e, b, from, to);
    }
}

proof fn lemma_entity_is_read(a: Seq<char>, e: Seq<char>, c: char, b: Seq<char>)
    requires
        !a.contains('&'),
        is_entity_for(e, c),
    ensures
        decoded(a + e + b) == a + seq![c] + decoded(b),
        decoded(a + ("&amp;"@ + e.skip(1)) + b) == a + seq![c] + decoded(b),
{
    reveal_strlit("&amp;");
    reveal_strlit("&");
    reveal_strlit("&lt;");
    reveal_strlit("&gt;");
    reveal_strlit("&quot;");
    reveal_strlit("&#39;");
    reveal_strlit("&nbsp;");
    let rest = replaced(b, "&amp;"@, "&"@);
    lemma_further(a, e, c, rest);
    lemma_pass_entity(a, e, b, "&amp;"@, "&"@);
    let tail = e.skip(1);
    assert(e =~= "&"@ + tail);
    lemma_pass(a, "&amp;"@ + (tail + b), "&amp;"@, "&"@);
    lemma_replaced_takes(tail + b, "&amp;"@, "&"@);
    lemma_pass(tail, b, "&amp;"@, "&"@);
    assert(a + ("&amp;"@ + tail) + b =~= a + ("&amp;"@ + (tail + b)));
    assert(a + ("&"@ + (tail + rest)) =~= a + e + rest);
}

proof fn lemma_further(a: Seq<char>, e: Seq<char>, c: char, b: Seq<char>)
    requires
        !a.contains('&'),
        is_entity_for(e, c),
    ensures
        decoded_further(a + e + b) == a + seq![c] + decoded_further(b),
{
    reveal_strlit("&lt;");
    reveal_strlit("&gt;");
    reveal_strlit("&quot;");
    reveal_strlit("&#39;");
    reveal_strlit("&nbsp;");
    reveal_strlit("<");
    reveal_strlit(">");
    reveal_strlit("\"");
    reveal_strlit("'");
    reveal_strlit(" ");
    assert("<"@ =~= seq!['<'] && ">"@ =~= seq!['>'] && "\""@ =~= seq!['"'] && "'"@ =~= seq!['\'']
        && " "@ =~= seq![' ']);
    assert("&lt;"@[1] == 'l' && "&gt;"@[1] == 'g' && "&quot;"@[1] == 'q' && "&#39;"@[1] == '#'
        && "&nbsp;"@[1] == 'n');
    let d0 = false;
    lemma_stage(a, e, c, b, d0, "&lt;"@, "<"@);
    let b1 = replaced(b, "&lt;"@, "<"@);
    let d1 = d0 || e == "&lt;"@;
    lemma_stage(a, e, c, b1, d1, "&gt;"@, ">"@);
    let b2 = replaced(b1, "&gt;"@, ">"@);
    let d2 = d1 || e == "&gt;"@;
    lemma_stage(a, e, c, b2, d2, "&quot;"@, "\""@);
    let b3 = replaced(b2, "&quot;"@, "\""@);
    let d3 = d2 || e == "&quot;"@;
    lemma_stage(a, e, c, b3, d3, "&#39;"@, "'"@);
    let b4 = replaced(b3, "&#39;"@, "'"@);
    let d4 = d3 || e == "&#39;"@;
    lemma_stage(a, e, c, b4, d4, "&nbsp;"@, " "@);
    let b5 = replaced(b4, "&nbsp;"@, " "@);
}

/// A lone ampersand stays, whatever entity is replaced.
proof fn lemma_amp_stays(a: Seq<char>, b: Seq<char>, from: Seq<char>, to: Seq<char>)
    requires
        !a.contains('&'),
        from.len() > 1,
        from[0] == '&',
        from[1] != '&',
        to.len() > 0,
        b.len() > 0 ==> b[0] != from[1],
    ensures
        replaced(a + seq!['&'] + b, from, to) == a + seq!['&'] + replaced(b, from, to),
        b.len() == 0 ==> replaced(b, from, to).len() == 0,
        b.len() > 0 ==> replaced(b, from, to).len() > 0 && (replaced(b, from, to)[0] == b[0]
            || replaced(b, from, to)[0] == to[0]),
{
    let p = a + seq!['&'];
    let s = p + b;
    assert forall|i: int| 0 <= i < p.len() implies !occurs_at(s, from, i) by {
        if i < a.len() {
            assert(s[i] == a[i]);
            lemma_not_at(s, from, i);
        } else if b.len() > 0 {
            assert(s[i + 1] == b[0]);
            lemma_not_at_second(s, from, i);
        }
    }
    lemma_replaced_skips(p, b, from, to);
}

/// `c` does not go on any entity that starts with an ampersand, `&amp;` aside.
pub open spec fn ends_ampersand(c: char) -> bool {
    c != 'l' && c != 'g' && c != 'q' && c != '#' && c != 'n'
}

proof fn lemma_ampersand_is_kept(a: Seq<char>, b: Seq<char>)
    requires
        !a.contains('&'),
        b.len() > 0 ==> ends_ampersand(b[0]),
    ensures
        decoded(a + "&amp;"@ + b) == a + seq!['&'] + decoded(b),
        (b.len() > 0 ==> b[0] != 'a') ==> decoded(a + seq!['&'] + b) == a + seq!['&'] + decoded(b),
{
    reveal_strlit("&amp;");
    reveal_strlit("&");
    reveal_strlit("&lt;");
    reveal_strlit("&gt;");
    reveal_strlit("&quot;");
    reveal_strlit("&#39;");
    reveal_strlit("&nbsp;");
    reveal_strlit("<");
    reveal_strlit(">");
    reveal_strlit("\"");
    reveal_strlit("'");
    reveal_strlit(" ");
    assert("&"@ =~= seq!['&']);
    let b1 = replaced(b, "&amp;"@, "&"@);
    assert(a + "&amp;"@ + b =~= a + ("&amp;"@ + b));
    lemma_pass(a, "&amp;"@ + b, "&amp;"@, "&"@);
    lemma_replaced_takes(b, "&amp;"@, "&"@);
    assert(a + ("&"@ + b1) =~= a + seq!['&'] + b1);
    if b.len() > 0 ==> b[0] != 'a' {
        lemma_amp_stays(a, b, "&amp;"@, "&"@);
    }
    assert(b1.len() > 0 ==> ends_ampersand(b1[0]));
    lemma_amp_stays(a, b1, "&lt;"@, "<"@);
    let b2 = replaced(b1, "&lt;"@, "<"@);
    lemma_amp_stays(a, b2, "&gt;"@, ">"@);
    let b3 = replaced(b2, "&gt;"@, ">"@);
    lemma_amp_stays(a, b3, "&quot;"@, "\""@);
    let b4 = replaced(b3, "&quot;"@, "\""@);
    lemma_amp_stays(a, b4, "&#39;"@, "'"@);
    let b5 = replaced(b4, "&#39;"@, "'"@);
    lemma_amp_stays(a, b5, "&nbsp;"@, " "@);
    let b6 = replaced(b5, "&nbsp;"@, " "@);
}

/// Decoding reads a text from left to right: text without an ampersand is
/// kept, an entity becomes its character, and so does one whose ampersand is
/// itself an entity. An ampersand that begins no entity stays.
pub proof fn law_entities_are_decoded(a: Seq<char>, b: Seq<char>)
    requires
        !a.contains('&'),
    ensures
        decoded(a + b) == a + decoded(b),
        decoded(a + "&lt;"@ + b) == a + seq!['<'] + decoded(b),
        decoded(a + "&gt;"@ + b) == a + seq!['>'] + decoded(b),
        decoded(a + "&quot;"@ + b) == a + seq!['"'] + decoded(b),
        decoded(a + "&#39;"@ + b) == a + seq!['\''] + decoded(b),
        decoded(a + "&nbsp;"@ + b) == a + seq![' '] + decoded(b),
        decoded(a + "&amp;lt;"@ + b) == a + seq!['<'] + decoded(b),
        decoded(a + "&amp;gt;"@ + b) == a + seq!['>'] + decoded(b),
        decoded(a + "&amp;quot;"@ + b) == a + seq!['"'] + decoded(b),
        decoded(a + "&amp;#39;"@ + b) == a + seq!['\''] + decoded(b),
        decoded(a + "&amp;nbsp;"@ + b) == a + seq![' '] + decoded(b),
        (b.len() == 0 || ends_ampersand(b[0])) ==> decoded(a + "&amp;"@ + b) == a + seq!['&']
            + decoded(b),
        (b.len() == 0 || ends_ampersand(b[0]) && b[0] != 'a') ==> decoded(a + seq!['&'] + b) == a
            + seq!['&'] + decoded(b),
        decoded(Seq::<char>::empty()).len() == 0,
{
    reveal_strlit("&amp;");
    reveal_strlit("&lt;");
    reveal_strlit("&gt;");
    reveal_strlit("&quot;");
    reveal_strlit("&#39;");
    reveal_strlit("&nbsp;");
    reveal_strlit("&amp;lt;");
    reveal_strlit("&amp;gt;");
    reveal_strlit("&amp;quot;");
    reveal_strlit("&amp;#39;");
    reveal_strlit("&amp;nbsp;");
    assert("&amp;lt;"@ =~= "&amp;"@ + "&lt;"@.skip(1));
    assert("&amp;gt;"@ =~= "&amp;"@ + "&gt;"@.skip(1));
    assert("&amp;quot;"@ =~= "&amp;"@ + "&quot;"@.skip(1));
    assert("&amp;#39;"@ =~= "&amp;"@ + "&#39;"@.skip(1));
    assert("&amp;nbsp;"@ =~= "&amp;"@ + "&nbsp;"@.skip(1));
    lemma_entity_is_read(a, "&lt;"@, '<', b);
    lemma_entity_is_read(a, "&gt;"@, '>', b);
    lemma_entity_is_read(a, "&quot;"@, '"', b);
    lemma_entity_is_read(a, "&#39;"@, '\'', b);
    lemma_entity_is_read(a, "&nbsp;"@, ' ', b);
    lemma_pass(a, b, "&amp;"@, "&"@);
    let b1 = replaced(b, "&amp;"@, "&"@);
    lemma_pass(a, b1, "&lt;"@, "<"@);
    let b2 = replaced(b1, "&lt;"@, "<"@);
    lemma_pass(a, b2, "&gt;"@, ">"@);
    let b3 = replaced(b2, "&gt;"@, ">"@);
    lemma_pass(a, b3, "&quot;"@, "\""@);
    let b4 = replaced(b3, "&quot;"@, "\""@);
    lemma_pass(a, b4, "&#39;"@, "'"@);
    let b5 = replaced(b4, "&#39;"@, "'"@);
    lemma_pass(a, b5, "&nbsp;"@, " "@);
    let b6 = replaced(b5, "&nbsp;"@, " "@);
    if b.len() == 0 || ends_ampersand(b[0]) {
        lemma_ampersand_is_kept(a, b);
    }
}

/// Text in which no entity stands is not changed by decoding.
pub proof fn law_text_without_entities_is_kept(s: Seq<char>)
    requires
        !has_text(s, "&amp;"@),
        !has_text(s, "&lt;"@),
        !has_text(s, "&gt;"@),
        !has_text(s, "&quot;"@),
        !has_text(s, "&#39;"@),
        !has_text(s, "&nbsp;"@),
    ensures
        decoded(s) == s,
{
    reveal_strlit("&amp;");
    reveal_strlit("&lt;");
    reveal_strlit("&gt;");
    reveal_strlit("&quot;");
    reveal_strlit("&#39;");
    reveal_strlit("&nbsp;");
    lemma_replaced_absent(s, "&amp;"@, "&"@);
    lemma_replaced_absent(s, "&lt;"@, "<"@);
    lemma_replaced_absent(s, "&gt;"@, ">"@);
    lemma_replaced_absent(s, "&quot;"@, "\""@);
    lemma_replaced_absent(s, "&#39;"@, "'"@);
    lemma_replaced_absent(s, "&nbsp;"@, " "@);
}

/// In tidy text without tags, an entity is the character it stands for.
pub proof fn law_entities_are_read_as_characters(
    a: Seq<char>,
    e: Seq<char>,
    c: char,
    b: Seq<char>,
)
    requires
        is_entity_for(e, c) || e == "&amp;"@ && c == '&' && (b.len() > 0 ==> ends_ampersand(b[0])),
        !(a + b).contains('&'),
        no_brackets(a + b),
        single_spaced(a + seq![c] + b),
        no_outer_space(a + seq![c] + b),
    ensures
        stripped(a + e + b) == a + seq![c] + b,
{
    reveal_strlit("&amp;");
    reveal_strlit("&lt;");
    reveal_strlit("&gt;");
    reveal_strlit("&quot;");
    reveal_strlit("&#39;");
    reveal_strlit("&nbsp;");
    let both = a + b;
    let s = a + e + b;
    let plain = a + seq![c] + b;
    assert forall|i: int| 0 <= i < a.len() implies a[i] != '&' by {
        assert(a[i] == both[i]);
    }
    assert forall|i: int| 0 <= i < b.len() implies b[i] != '&' by {
        assert(b[i] == both[a.len() + i]);
    }
    assert forall|i: int| 0 <= i < s.len() implies #[trigger] s[i] != '<' && s[i] != '>' by {
        if i < a.len() {
            assert(s[i] == both[i]);
        } else if i >= a.len() + e.len() {
            assert(s[i] == both[i - e.len()]);
        } else {
            assert(s[i] == e[i - a.len()]);
        }
    }
    lemma_outside_tags_kept(s);
    let none = Seq::<char>::empty();
    law_entities_are_decoded(b, none);
    assert(b + none =~= b);
    assert(b + decoded(none) =~= b);
    if is_entity_for(e, c) {
        lemma_entity_is_read(a, e, c, b);
    } else {
        lemma_ampersand_is_kept(a, b);
    }
    lemma_collapsed_kept(plain);
}

} // verus!
