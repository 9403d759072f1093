//! Text as sequences of characters.
//!
//! The specifications describe strings by their sequence of characters; the
//! executable functions work on character buffers and convert at the edges.

use crate::escape_laws::{lemma_replaced_absent, lemma_replaced_skips, lemma_replaced_takes};
use vstd::prelude::*;

verus! {

/// `String::push` appends one character to the end of the string.
pub assume_specification[ String::push ](s: &mut String, ch: char)
    ensures
        final(s)@ == old(s)@.push(ch),
;

/// The characters of `s`, in order.
pub fn chars_of(s: &str) -> (r: Vec<char>)
    ensures
        r@ == s@,
{
    let mut out: Vec<char> = Vec::new();
    for c in it: s.chars()
        invariant
            it.seq() == s@,
            out@ == s@.take(it.index() as int),
    {
        proof {
            assert(s@.take(it.index() as int + 1) =~= s@.take(it.index() as int).push(c));
        }
        out.push(c);
    }
    assert(s@.take(s@.len() as int) =~= s@);
    out
}

/// The string made of the given characters.
pub fn string_of(chars: &[char]) -> (r: String)
    ensures
        r@ == chars@,
{
    let mut out = String::new();
    for i in 0..chars.len()
        invariant
            out@ == chars@.take(i as int),
    {
        proof {
            assert(chars@.take(i as int + 1) =~= chars@.take(i as int).push(chars@[i as int]));
        }
        out.push(chars[i]);
    }
    assert(chars@.take(chars@.len() as int) =~= chars@);
    out
}

/// Whether the two strings hold the same characters.
pub fn same_text(a: &str, b: &str) -> (r: bool)
    ensures
        r == (a@ == b@),
{
    let x = chars_of(a);
    let y = chars_of(b);
    if x.len() != y.len() {
        return false;
    }
    for i in 0..x.len()
        invariant
            x@ == a@,
            y@ == b@,
            x@.len() == y@.len(),
            forall|j: int| 0 <= j < i ==> x@[j] == y@[j],
    {
        if x[i] != y[i] {
            return false;
        }
    }
    assert(x@ =~= y@);
    true
}

/// The characters of a string that may be absent.
pub open spec fn opt_text(o: Option<String>) -> Option<Seq<char>> {
    match o {
        Some(s) => Some(s@),
        None => None,
    }
}

/// The characters of a string slice that may be absent.
pub open spec fn opt_str(o: Option<&str>) -> Option<Seq<char>> {
    match o {
        Some(s) => Some(s@),
        None => None,
    }
}

/// A list of strings, as the sequence of what they hold.
pub open spec fn texts(list: Seq<String>) -> Seq<Seq<char>> {
    list.map_values(|s: String| s@)
}

/// Whether `s` is one of the strings of `list`.
pub fn is_listed(list: &Vec<String>, s: &str) -> (r: bool)
    ensures
        r == texts(list@).contains(s@),
{
    for i in 0..list.len()
        invariant
            forall|j: int| 0 <= j < i ==> texts(list@)[j] != s@,
    {
        if same_text(list[i].as_str(), s) {
            assert(texts(list@)[i as int] == s@);
            return true;
        }
    }
    false
}

/// `pat` stands in `s` at position `at`.
pub open spec fn occurs_at(s: Seq<char>, pat: Seq<char>, at: int) -> bool {
    &&& 0 <= at
    &&& at + pat.len() <= s.len()
    &&& s.subrange(at, at + pat.len()) == pat
}

/// `pat` stands somewhere in `s`.
pub open spec fn has_text(s: Seq<char>, pat: Seq<char>) -> bool {
    exists|at: int| #[trigger] occurs_at(s, pat, at)
}

/// Whether `pat` stands in `s` at position `at`.
pub fn matches_at(s: &[char], pat: &[char], at: usize) -> (r: bool)
    ensures
        r == occurs_at(s@, pat@, at as int),
{
    let len: usize = s.len();
    if at > len || len - at < pat.len() {
        return false;
    }
    for i in 0..pat.len()
        invariant
            at + pat@.len() <= len == s@.len(),
            forall|j: int| 0 <= j < i ==> s@[at + j] == pat@[j],
    {
        if s[at + i] != pat[i] {
            assert(s@.subrange(at as int, at + pat@.len())[i as int] != pat@[i as int]);
            return false;
        }
    }
    assert(s@.subrange(at as int, at + pat@.len()) =~= pat@);
    true
}

/// Whether `pat` stands somewhere in `s`.
pub fn contains_text(s: &[char], pat: &[char]) -> (r: bool)
    ensures
        r == has_text(s@, pat@),
{
    if pat.len() > s.len() {
        return false;
    }
    let last: usize = s.len() - pat.len();
    let mut at: usize = 0;
    while at <= last
        invariant
            last == s@.len() - pat@.len(),
            at <= last + 1,
            forall|j: int| 0 <= j < at ==> !occurs_at(s@, pat@, j),
        decreases last + 1 - at,
    {
        if matches_at(s, pat, at) {
            return true;
        }
        if at == last {
            return false;
        }
        at = at + 1;
    }
    false
}

/// `s` with every occurrence of `from` replaced by `to`, left to right and
/// without overlaps.
pub open spec fn replaced(s: Seq<char>, from: Seq<char>, to: Seq<char>) -> Seq<char>
    decreases s.len(),
{
    if s.len() < from.len() || from.len() == 0 {
        s
    } else if s.take(from.len() as int) == from {
        to + replaced(s.skip(from.len() as int), from, to)
    } else {
        seq![s[0]] + replaced(s.skip(1), from, to)
    }
}

/// Replaces every occurrence of `from` by `to`.
pub fn replace_text(s: &[char], from: &[char], to: &[char]) -> (r: Vec<char>)
    requires
        from@.len() > 0,
    ensures
        r@ == replaced(s@, from@, to@),
{
    let mut out: Vec<char> = Vec::new();
    let mut i: usize = 0;
    assert(s@.skip(0) =~= s@);
    while i < s.len()
        invariant
            from@.len() > 0,
            i <= s@.len(),
            replaced(s@, from@, to@) == out@ + replaced(s@.skip(i as int), from@, to@),
        decreases s@.len() - i,
    {
        let ghost rest = s@.skip(i as int);
        if matches_at(s, from, i) {
            proof {
                assert(rest.take(from@.len() as int) =~= s@.subrange(
                    i as int,
                    i + from@.len(),
                ));
                assert(rest.skip(from@.len() as int) =~= s@.skip(i + from@.len()));
            }
            let ghost before = out@;
            push_all(&mut out, to);
            assert(before + (to@ + replaced(s@.skip(i + from@.len()), from@, to@)) =~= out@
                + replaced(s@.skip(i + from@.len()), from@, to@));
            i = i + from.len();
        } else {
            let ghost before = out@;
            proof {
                if rest.len() >= from@.len() {
                    assert(rest.take(from@.len() as int) =~= s@.subrange(
                        i as int,
                        i + from@.len(),
                    ));
                    assert(rest.skip(1) =~= s@.skip(i + 1));
                } else {
                    assert(rest =~= seq![rest[0]] + s@.skip(i + 1));
                    assert(replaced(s@.skip(i + 1), from@, to@) == s@.skip(i + 1));
                }
            }
            out.push(s[i]);
            assert(before + (seq![rest[0]] + replaced(s@.skip(i + 1), from@, to@)) =~= out@
                + replaced(s@.skip(i + 1), from@, to@));
            i = i + 1;
        }
    }
    assert(s@.skip(i as int) =~= Seq::<char>::empty());
    assert(out@ + replaced(s@.skip(i as int), from@, to@) =~= out@);
    out
}

/// Appends `more` to `out`.
pub fn push_all(out: &mut Vec<char>, more: &[char])
    ensures
        final(out)@ == old(out)@ + more@,
{
    let ghost start = out@;
    for i in 0..more.len()
        invariant
            out@ == start + more@.take(i as int),
    {
        proof {
            assert(start + more@.take(i as int + 1) =~= (start + more@.take(i as int)).push(
                more@[i as int],
            ));
        }
        out.push(more[i]);
    }
    assert(more@.take(more@.len() as int) =~= more@);
}

/// The characters of `s` from `from` up to `to`.
pub fn copy_range(s: &[char], from: usize, to: usize) -> (r: Vec<char>)
    requires
        from <= to <= s@.len(),
    ensures
        r@ == s@.subrange(from as int, to as int),
{
    let mut out: Vec<char> = Vec::new();
    for i in from..to
        invariant
            from <= to <= s@.len(),
            out@ == s@.subrange(from as int, i as int),
    {
        proof {
            assert(s@.subrange(from as int, i as int + 1) =~= s@.subrange(
                from as int,
                i as int,
            ).push(s@[i as int]));
        }
        out.push(s[i]);
    }
    out
}

/// Unicode's `White_Space` property.
pub open spec fn is_space(c: char) -> bool {
    let n = c as u32;
    ||| 0x09 <= n <= 0x0d
    ||| n == 0x20
    ||| n == 0x85
    ||| n == 0xa0
    ||| n == 0x1680
    ||| 0x2000 <= n <= 0x200a
    ||| n == 0x2028
    ||| n == 0x2029
    ||| n == 0x202f
    ||| n == 0x205f
    ||| n == 0x3000
}

/// Whether `c` is white space.
pub fn space(c: char) -> (r: bool)
    ensures
        r == is_space(c),
{
    let n: u32 = c as u32;
    (0x09 <= n && n <= 0x0d) || n == 0x20 || n == 0x85 || n == 0xa0 || n == 0x1680 || (0x2000 <= n
        && n <= 0x200a) || n == 0x2028 || n == 0x2029 || n == 0x202f || n == 0x205f || n == 0x3000
}

/// `s` without its leading characters that satisfy `p`.
pub open spec fn drop_leading(s: Seq<char>, p: spec_fn(char) -> bool) -> Seq<char>
    decreases s.len(),
{
    if s.len() > 0 && p(s[0]) {
        drop_leading(s.skip(1), p)
    } else {
        s
    }
}

/// `s` without its trailing characters that satisfy `p`.
pub open spec fn drop_trailing(s: Seq<char>, p: spec_fn(char) -> bool) -> Seq<char>
    decreases s.len(),
{
    if s.len() > 0 && p(s.last()) {
        drop_trailing(s.drop_last(), p)
    } else {
        s
    }
}

/// `s` without white space at either end.
pub open spec fn trimmed(s: Seq<char>) -> Seq<char> {
    drop_trailing(drop_leading(s, |c: char| is_space(c)), |c: char| is_space(c))
}

/// Cuts the white space off both ends.
pub fn trim(s: &[char]) -> (r: Vec<char>)
    ensures
        r@ == trimmed(s@),
{
    let ghost p = |c: char| is_space(c);
    let mut from: usize = 0;
    assert(s@.skip(0) =~= s@);
    while from < s.len() && space(s[from])
        invariant
            from <= s@.len(),
            p == (|c: char| is_space(c)),
            drop_leading(s@, p) == drop_leading(s@.skip(from as int), p),
        decreases s@.len() - from,
    {
        assert(s@.skip(from as int).skip(1) =~= s@.skip(from + 1));
        from = from + 1;
    }
    assert(drop_leading(s@, p) == s@.skip(from as int));
    let mut to: usize = s.len();
    assert(s@.subrange(from as int, to as int) =~= s@.skip(from as int));
    while to > from && space(s[to - 1])
        invariant
            from <= to <= s@.len(),
            p == (|c: char| is_space(c)),
            drop_trailing(s@.skip(from as int), p) == drop_trailing(
                s@.subrange(from as int, to as int),
                p,
            ),
        decreases to,
    {
        assert(s@.subrange(from as int, to as int).drop_last() =~= s@.subrange(
            from as int,
            to - 1,
        ));
        to = to - 1;
    }
    copy_range(s, from, to)
}

/// The test for the character `c`.
pub open spec fn same_as(c: char) -> spec_fn(char) -> bool {
    |d: char| d == c
}

/// `s` without the `c`s at its start.
pub open spec fn trimmed_start_of(s: Seq<char>, c: char) -> Seq<char> {
    drop_leading(s, same_as(c))
}

/// `s` without the `c`s at its end.
pub open spec fn trimmed_end_of(s: Seq<char>, c: char) -> Seq<char> {
    drop_trailing(s, same_as(c))
}

/// Cuts the `c`s off the start.
pub fn trim_start_of(s: &[char], c: char) -> (r: Vec<char>)
    ensures
        r@ == trimmed_start_of(s@, c),
{
    let ghost p = same_as(c);
    let mut from: usize = 0;
    assert(s@.skip(0) =~= s@);
    while from < s.len() && s[from] == c
        invariant
            from <= s@.len(),
            p == same_as(c),
            drop_leading(s@, p) == drop_leading(s@.skip(from as int), p),
        decreases s@.len() - from,
    {
        assert(s@.skip(from as int).skip(1) =~= s@.skip(from + 1));
        from = from + 1;
    }
    assert(s@.subrange(from as int, s@.len() as int) =~= s@.skip(from as int));
    copy_range(s, from, s.len())
}

/// Cuts the `c`s off the end.
pub fn trim_end_of(s: &[char], c: char) -> (r: Vec<char>)
    ensures
        r@ == trimmed_end_of(s@, c),
{
    let ghost p = same_as(c);
    let mut to: usize = s.len();
    assert(s@.take(to as int) =~= s@);
    while to > 0 && s[to - 1] == c
        invariant
            to <= s@.len(),
            p == same_as(c),
            drop_trailing(s@, p) == drop_trailing(s@.take(to as int), p),
        decreases to,
    {
        assert(s@.take(to as int).drop_last() =~= s@.take(to - 1));
        to = to - 1;
    }
    assert(s@.subrange(0, to as int) =~= s@.take(to as int));
    copy_range(s, 0, to)
}

/// The position of the first `c` in `s`, if there is one.
pub fn find_char(s: &[char], c: char) -> (r: Option<usize>)
    ensures
        r is Some <==> s@.contains(c),
        r matches Some(i) ==> s@.index_of_first(c) == Some(i as int),
        r is None ==> s@.index_of_first(c) is None,
        r matches Some(i) ==> i < s@.len(),
{
    for i in 0..s.len()
        invariant
            forall|j: int| 0 <= j < i ==> s@[j] != c,
    {
        if s[i] == c {
            proof {
                s@.index_of_first_ensures(c);
                let k = s@.index_of_first(c)->0;
                assert(s@.contains(c)) by {
                    assert(s@[i as int] == c);
                }
                assert(k == i);
            }
            return Some(i);
        }
    }
    proof {
        s@.index_of_first_ensures(c);
    }
    None
}

/// What stands before the first `c` of `s`, and what stands after it if there
/// is one.
pub open spec fn split_once(s: Seq<char>, c: char) -> (Seq<char>, Option<Seq<char>>) {
    match s.index_of_first(c) {
        Some(n) => (s.take(n), Some(s.skip(n + 1))),
        None => (s, None),
    }
}

/// Splits at the first `c`.
pub fn split_at_first(s: &[char], c: char) -> (r: (Vec<char>, Option<Vec<char>>))
    ensures
        r.0@ == split_once(s@, c).0,
        r.1 is Some <==> split_once(s@, c).1 is Some,
        r.1 matches Some(rest) ==> split_once(s@, c).1 == Some(rest@),
{
    match find_char(s, c) {
        Some(n) => {
            let len: usize = s.len();
            assert(s@.subrange(0, n as int) =~= s@.take(n as int));
            assert(s@.subrange(n + 1, s@.len() as int) =~= s@.skip(n + 1));
            (copy_range(s, 0, n), Some(copy_range(s, n + 1, len)))
        },
        None => {
            assert(s@.subrange(0, s@.len() as int) =~= s@);
            (copy_range(s, 0, s.len()), None)
        },
    }
}

/// A line without the carriage return that belongs to its line ending.
pub open spec fn without_return(s: Seq<char>) -> Seq<char> {
    if s.len() > 0 && s.last() == '\r' {
        s.drop_last()
    } else {
        s
    }
}

/// The lines of `s`: each ends with `\n` or `\r\n`, which is no part of it;
/// the last line may lack its ending.
pub open spec fn lines(s: Seq<char>) -> Seq<Seq<char>>
    decreases s.len(),
{
    match s.index_of_first('\n') {
        Some(n) if 0 <= n < s.len() => seq![without_return(s.take(n))] + lines(s.skip(n + 1)),
        _ => if s.len() == 0 {
            seq![]
        } else {
            seq![s]
        },
    }
}

/// A list of character buffers, as the sequence of what they hold.
pub open spec fn rows(v: Seq<Vec<char>>) -> Seq<Seq<char>> {
    v.map_values(|row: Vec<char>| row@)
}

/// Splits into lines.
pub fn split_lines(s: &[char]) -> (r: Vec<Vec<char>>)
    ensures
        rows(r@) == lines(s@),
{
    let mut out: Vec<Vec<char>> = Vec::new();
    let mut from: usize = 0;
    let mut i: usize = 0;
    proof {
        assert(s@.skip(0) =~= s@);
        assert(rows(out@) + lines(s@) =~= lines(s@));
    }
    while i < s.len()
        invariant
            from <= i <= s@.len(),
            forall|j: int| from <= j < i ==> s@[j] != '\n',
            rows(out@) + lines(s@.skip(from as int)) == lines(s@),
        decreases s@.len() - i,
    {
        if s[i] == '\n' {
            let ghost rest = s@.skip(from as int);
            let ghost n = i - from;
            let mut to: usize = i;
            if to > from && s[to - 1] == '\r' {
                to = to - 1;
            }
            let line = copy_range(s, from, to);
            proof {
                rest.index_of_first_ensures('\n');
                assert(rest[n] == '\n');
                assert(rest.contains('\n'));
                let k = rest.index_of_first('\n')->0;
                assert(k == n) by {
                    if k < n {
                        assert(s@[from + k] == rest[k]);
                    }
                }
                assert(rest.take(n) =~= s@.subrange(from as int, i as int));
                assert(line@ =~= without_return(rest.take(n)));
                assert(rest.skip(n + 1) =~= s@.skip(i + 1));
                assert(rows(out@.push(line)) =~= rows(out@).push(line@));
                assert(rows(out@.push(line)) + lines(s@.skip(i + 1)) =~= rows(out@) + (seq![line@]
                    + lines(s@.skip(i + 1))));
            }
            out.push(line);
            from = i + 1;
        }
        i = i + 1;
    }
    let ghost rest = s@.skip(from as int);
    proof {
        rest.index_of_first_ensures('\n');
        assert(!rest.contains('\n')) by {
            if rest.contains('\n') {
                let k = choose|k: int| 0 <= k < rest.len() && rest[k] == '\n';
                assert(s@[from + k] == '\n');
            }
        }
    }
    if from < s.len() {
        let line = copy_range(s, from, s.len());
        proof {
            assert(line@ =~= rest);
            assert(rows(out@.push(line)) =~= rows(out@) + seq![rest]);
        }
        out.push(line);
    } else {
        assert(rest.len() == 0);
        assert(rows(out@) + lines(rest) =~= rows(out@));
    }
    out
}

/// How many characters stand before the first white space of `s`.
pub open spec fn word_len(s: Seq<char>) -> nat
    decreases s.len(),
{
    if s.len() == 0 || is_space(s[0]) {
        0
    } else {
        1 + word_len(s.skip(1))
    }
}

/// The words of `s`: its longest runs without white space, in order.
pub open spec fn words(s: Seq<char>) -> Seq<Seq<char>>
    decreases s.len(),
{
    if s.len() == 0 {
        seq![]
    } else if is_space(s[0]) {
        words(s.skip(1))
    } else {
        let n = word_len(s) as int;
        if 0 < n <= s.len() {
            seq![s.take(n)] + words(s.skip(n))
        } else {
            seq![]
        }
    }
}

/// Splits into words.
pub fn split_words(s: &[char]) -> (r: Vec<Vec<char>>)
    ensures
        rows(r@) == words(s@),
{
    let mut out: Vec<Vec<char>> = Vec::new();
    let mut i: usize = 0;
    proof {
        assert(s@.skip(0) =~= s@);
        assert(rows(out@) + words(s@) =~= words(s@));
    }
    while i < s.len()
        invariant
            i <= s@.len(),
            rows(out@) + words(s@.skip(i as int)) == words(s@),
        decreases s@.len() - i,
    {
        let ghost rest = s@.skip(i as int);
        if space(s[i]) {
            assert(rest.skip(1) =~= s@.skip(i + 1));
            i = i + 1;
        } else {
            let from: usize = i;
            while i < s.len() && !space(s[i])
                invariant
                    from <= i <= s@.len(),
                    word_len(s@.skip(from as int)) == (i - from) + word_len(s@.skip(i as int)),
                decreases s@.len() - i,
            {
                assert(s@.skip(i as int).skip(1) =~= s@.skip(i + 1));
                i = i + 1;
            }
            let word = copy_range(s, from, i);
            proof {
                let n = i - from;
                assert(word_len(rest) == n);
                assert(word_len(rest) > 0);
                assert(rest.take(n) =~= word@);
                assert(rest.skip(n) =~= s@.skip(i as int));
                assert(rows(out@.push(word)) + words(s@.skip(i as int)) =~= rows(out@) + (
                seq![word@] + words(s@.skip(i as int))));
            }
            out.push(word);
        }
    }
    proof {
        assert(s@.skip(i as int) =~= Seq::<char>::empty());
        assert(rows(out@) + words(s@.skip(i as int)) =~= rows(out@));
    }
    out
}

/// The decimal digit of `d`.
pub open spec fn digit(d: nat) -> char {
    ((48 + d) as u8) as char
}

/// `n` written in decimal.
pub open spec fn decimal(n: nat) -> Seq<char>
    decreases n,
{
    if n < 10 {
        seq![digit(n)]
    } else {
        decimal(n / 10).push(digit(n % 10))
    }
}

/// Writes `n` in decimal.
pub fn decimal_of(n: u64) -> (r: String)
    ensures
        r@ == decimal(n as nat),
    decreases n,
{
    let mut out = if n < 10 {
        String::new()
    } else {
        decimal_of(n / 10)
    };
    let d: u8 = (n % 10) as u8;
    out.push((48 + d) as char);
    assert(n < 10 ==> out@ =~= decimal(n as nat));
    out
}

/// Text is found wherever it stands, and nowhere else: `pat` stands in `s`
/// exactly if `s` is some text, `pat`, and some text.
pub proof fn law_text_is_found_where_it_stands(
    s: Seq<char>,
    before: Seq<char>,
    pat: Seq<char>,
    after: Seq<char>,
)
    ensures
        s == before + pat + after ==> has_text(s, pat),
        has_text(s, pat) ==> exists|at: int|
            0 <= at <= s.len() - pat.len() && s == #[trigger] s.take(at) + pat + s.skip(
                at + pat.len(),
            ),
{
    if s == before + pat + after {
        let at = before.len() as int;
        assert(s.subrange(at, at + pat.len()) =~= pat);
        assert(occurs_at(s, pat, at));
    }
    if has_text(s, pat) {
        let at = choose|at: int| #[trigger] occurs_at(s, pat, at);
        assert forall|i: int| 0 <= i < pat.len() implies s[at + i] == pat[i] by {
            assert(s.subrange(at, at + pat.len())[i] == pat[i]);
        }
        assert(s =~= s.take(at) + pat + s.skip(at + pat.len()));
    }
}

/// Replacing turns the first occurrence into the new text, keeps what stands
/// before it, and goes on behind it; a text without an occurrence it keeps.
pub proof fn law_occurrences_are_replaced_in_turn(
    before: Seq<char>,
    from: Seq<char>,
    to: Seq<char>,
    after: Seq<char>,
)
    requires
        from.len() > 0,
    ensures
        (forall|i: int|
            0 <= i < before.len() ==> !#[trigger] occurs_at(before + from + after, from, i))
            ==> replaced(before + from + after, from, to) == before + to + replaced(
            after,
            from,
            to,
        ),
        !has_text(before, from) ==> replaced(before, from, to) == before,
{
    let s = before + from + after;
    assert(s =~= before + (from + after));
    if forall|i: int| 0 <= i < before.len() ==> !#[trigger] occurs_at(s, from, i) {
        lemma_replaced_skips(before, from + after, from, to);
        lemma_replaced_takes(after, from, to);
        assert(before + (to + replaced(after, from, to)) =~= before + to + replaced(
            after,
            from,
            to,
        ));
    }
    if !has_text(before, from) {
        lemma_replaced_absent(before, from, to);
    }
}

/// All characters of `pad` satisfy `p`.
pub open spec fn all_of(pad: Seq<char>, p: spec_fn(char) -> bool) -> bool {
    forall|i: int| 0 <= i < pad.len() ==> p(#[trigger] pad[i])
}

proof fn lemma_drop_leading_pad(pad: Seq<char>, s: Seq<char>, p: spec_fn(char) -> bool)
    requires
        all_of(pad, p),
        s.len() > 0 ==> !p(s[0]),
    ensures
        drop_leading(pad + s, p) == s,
    decreases pad.len(),
{
    if pad.len() == 0 {
        assert(pad + s =~= s);
    } else {
        assert((pad + s)[0] == pad[0]);
        assert((pad + s).skip(1) =~= pad.skip(1) + s);
        assert forall|i: int| 0 <= i < pad.skip(1).len() implies p(#[trigger] pad.skip(1)[i]) by {
            assert(pad.skip(1)[i] == pad[i + 1]);
        }
        lemma_drop_leading_pad(pad.skip(1), s, p);
    }
}

proof fn lemma_drop_trailing_pad(s: Seq<char>, pad: Seq<char>, p: spec_fn(char) -> bool)
    requires
        all_of(pad, p),
        s.len() > 0 ==> !p(s.last()),
    ensures
        drop_trailing(s + pad, p) == s,
    decreases pad.len(),
{
    if pad.len() == 0 {
        assert(s + pad =~= s);
    } else {
        let front = pad.drop_last();
        assert((s + pad).last() == pad[pad.len() - 1]);
        assert((s + pad).drop_last() =~= s + front);
        assert forall|i: int| 0 <= i < front.len() implies p(#[trigger] front[i]) by {
            assert(front[i] == pad[i]);
        }
        lemma_drop_trailing_pad(s, front, p);
    }
}

/// Trimming takes off all the white space around a text and nothing else.
pub proof fn law_trimming_takes_off_white_space(
    before: Seq<char>,
    s: Seq<char>,
    after: Seq<char>,
)
    requires
        all_of(before, |c: char| is_space(c)),
        all_of(after, |c: char| is_space(c)),
        s.len() > 0 ==> !is_space(s[0]) && !is_space(s.last()),
    ensures
        trimmed(before + s + after) == s,
{
    let p = |c: char| is_space(c);
    assert(before + s + after =~= before + (s + after));
    if s.len() > 0 {
        lemma_drop_leading_pad(before, s + after, p);
        lemma_drop_trailing_pad(s, after, p);
    } else {
        let pad = before + after;
        assert(before + s + after =~= pad + s);
        assert forall|i: int| 0 <= i < pad.len() implies p(#[trigger] pad[i]) by {
            if i < before.len() {
                assert(p(before[i]));
            } else {
                assert(p(after[i - before.len()]));
            }
        }
        lemma_drop_leading_pad(pad, s, p);
    }
}

/// Trimming a character off takes off all that stand at that end, and nothing
/// else.
pub proof fn law_trimming_takes_off_one_character(pad: Seq<char>, s: Seq<char>, c: char)
    requires
        forall|i: int| 0 <= i < pad.len() ==> #[trigger] pad[i] == c,
    ensures
        (s.len() > 0 ==> s[0] != c) ==> trimmed_start_of(pad + s, c) == s,
        (s.len() > 0 ==> s.last() != c) ==> trimmed_end_of(s + pad, c) == s,
{
    assert(all_of(pad, same_as(c)));
    if s.len() > 0 ==> s[0] != c {
        lemma_drop_leading_pad(pad, s, same_as(c));
    }
    if s.len() > 0 ==> s.last() != c {
        lemma_drop_trailing_pad(s, pad, same_as(c));
    }
}

/// A split text is put together again by the character at which it was split,
/// and that character does not stand before the split.
pub proof fn law_split_is_at_the_first(s: Seq<char>, c: char)
    ensures
        split_once(s, c).1 matches Some(rest) ==> s == split_once(s, c).0 + seq![c] + rest,
        split_once(s, c).1 is None ==> split_once(s, c).0 == s,
        split_once(s, c).1 is Some <==> s.contains(c),
        !split_once(s, c).0.contains(c),
{
    s.index_of_first_ensures(c);
    if let Some(n) = s.index_of_first(c) {
        assert(s =~= s.take(n) + seq![c] + s.skip(n + 1));
        assert forall|i: int| 0 <= i < n implies s.take(n)[i] != c by {
            assert(s.take(n)[i] == s[i]);
        }
    }
}

/// A line ends at its line feed, without it and without a carriage return
/// before it; what follows makes up the further lines. Text without a line
/// feed is one line as it is, and the empty text is none.
pub proof fn law_lines_end_at_line_feeds(line: Seq<char>, rest: Seq<char>)
    requires
        !line.contains('\n'),
    ensures
        (line.len() == 0 || line.last() != '\r') ==> lines(line + seq!['\n'] + rest) == seq![line]
            + lines(rest),
        lines(line + seq!['\r', '\n'] + rest) == seq![line] + lines(rest),
        line.len() > 0 ==> lines(line) == seq![line],
        lines(Seq::<char>::empty()).len() == 0,
{
    lemma_first_line(line, rest);
    let full = line.push('\r');
    assert forall|i: int| 0 <= i < full.len() implies full[i] != '\n' by {
        if i < line.len() {
            assert(full[i] == line[i]);
        }
    }
    lemma_first_line(full, rest);
    assert(full + seq!['\n'] + rest =~= line + seq!['\r', '\n'] + rest);
    assert(full.drop_last() =~= line);
    line.index_of_first_ensures('\n');
    Seq::<char>::empty().index_of_first_ensures('\n');
}

proof fn lemma_first_line(line: Seq<char>, rest: Seq<char>)
    requires
        !line.contains('\n'),
    ensures
        lines(line + seq!['\n'] + rest) == seq![without_return(line)] + lines(rest),
{
    let s = line + seq!['\n'] + rest;
    let n = line.len() as int;
    s.index_of_first_ensures('\n');
    assert(s[n] == '\n');
    assert(s.contains('\n'));
    let k = s.index_of_first('\n')->0;
    assert(k == n) by {
        if k < n {
            assert(s[k] == line[k]);
        }
    }
    assert(s.take(n) =~= line);
    assert(s.skip(n + 1) =~= rest);
}

proof fn lemma_word_len(a: Seq<char>, c: char, b: Seq<char>)
    requires
        is_space(c),
    ensures
        word_len(a + seq![c] + b) == word_len(a),
        word_len(a) <= a.len(),
    decreases a.len(),
{
    let s = a + seq![c] + b;
    if a.len() == 0 {
        assert(s[0] == c);
    } else {
        assert(s[0] == a[0]);
        assert(s.skip(1) =~= a.skip(1) + seq![c] + b);
        lemma_word_len(a.skip(1), c, b);
    }
}

proof fn lemma_one_word(w: Seq<char>)
    requires
        all_of(w, |c: char| !is_space(c)),
    ensures
        word_len(w) == w.len(),
    decreases w.len(),
{
    if w.len() > 0 {
        let p = |c: char| !is_space(c);
        assert(p(w[0]));
        assert forall|i: int| 0 <= i < w.skip(1).len() implies p(#[trigger] w.skip(1)[i]) by {
            assert(w.skip(1)[i] == w[i + 1]);
            assert(p(w[i + 1]));
        }
        lemma_one_word(w.skip(1));
    }
}

/// White space parts the words of a text, and nothing else does.
pub proof fn law_words_are_parted_by_white_space(a: Seq<char>, c: char, b: Seq<char>)
    requires
        is_space(c),
    ensures
        words(a + seq![c] + b) == words(a) + words(b),
        words(Seq::<char>::empty()).len() == 0,
        a.len() > 0 && all_of(a, |d: char| !is_space(d)) ==> words(a) == seq![a],
    decreases a.len(),
{
    let s = a + seq![c] + b;
    if a.len() > 0 && all_of(a, |d: char| !is_space(d)) {
        let p = |d: char| !is_space(d);
        assert(p(a[0]));
        lemma_one_word(a);
        assert(a.take(a.len() as int) =~= a);
        assert(a.skip(a.len() as int).len() == 0);
        assert(words(a.skip(a.len() as int)).len() == 0);
        assert(words(a) =~= seq![a]);
    }
    if a.len() == 0 {
        assert(s.skip(1) =~= b);
        assert(words(a) + words(b) =~= words(b));
    } else if is_space(a[0]) {
        assert(s.skip(1) =~= a.skip(1) + seq![c] + b);
        law_words_are_parted_by_white_space(a.skip(1), c, b);
    } else {
        lemma_word_len(a, c, b);
        let n = word_len(a) as int;
        assert(s.take(n) =~= a.take(n));
        assert(s.skip(n) =~= a.skip(n) + seq![c] + b);
        law_words_are_parted_by_white_space(a.skip(n), c, b);
        assert(words(s) =~= words(a) + words(b));
    }
}

/// The number that decimal digits name.
pub open spec fn number_named(digits: Seq<char>) -> nat
    decreases digits.len(),
{
    if digits.len() == 0 {
        0
    } else {
        (number_named(digits.drop_last()) * 10 + (digits.last() as int - 48)) as nat
    }
}

/// A number written in decimal names that number, in digits only, and without
/// a zero in front.
pub proof fn law_decimal_names_its_number(n: nat)
    ensures
        number_named(decimal(n)) == n,
        forall|i: int| 0 <= i < decimal(n).len() ==> '0' <= #[trigger] decimal(n)[i] <= '9',
        decimal(n).len() > 0,
        n > 0 ==> decimal(n)[0] != '0',
        n < 10 ==> decimal(n).len() == 1,
    decreases n,
{
    if n < 10 {
        assert(decimal(n).drop_last() =~= Seq::<char>::empty());
        assert(number_named(decimal(n).drop_last()) == 0);
    } else {
        law_decimal_names_its_number(n / 10);
        assert(decimal(n).drop_last() =~= decimal(n / 10));
        assert(decimal(n)[0] == decimal(n / 10)[0]);
    }
}

/// White space is what Unicode counts as such: the five control characters
/// from tab to carriage return, the next line, and the blanks and separators of
/// all widths; no visible character, and no zero-width one.
pub proof fn law_white_space_is_unicodes(c: char)
    ensures
        is_space(c) <==> {
            ||| '\t' <= c <= '\r'
            ||| c == ' '
            ||| c == '\u{85}'
            ||| c == '\u{a0}'
            ||| c == '\u{1680}'
            ||| '\u{2000}' <= c <= '\u{200a}'
            ||| c == '\u{2028}'
            ||| c == '\u{2029}'
            ||| c == '\u{202f}'
            ||| c == '\u{205f}'
            ||| c == '\u{3000}'
        },
        '!' <= c <= '~' ==> !is_space(c),
{
}

/// A list of strings is seen string by string.
pub proof fn law_lists_are_seen_string_by_string(list: Seq<String>, v: Seq<Vec<char>>)
    ensures
        texts(list).len() == list.len(),
        forall|i: int| 0 <= i < list.len() ==> #[trigger] texts(list)[i] == list[i]@,
        rows(v).len() == v.len(),
        forall|i: int| 0 <= i < v.len() ==> #[trigger] rows(v)[i] == v[i]@,
{
}

} // verus!
