//! Text as sequences of characters: whitespace, lines, order and number formatting.
//!
//! Every text of this crate is modelled by the sequence of its characters. The
//! functions here work on a vector of characters and on index ranges into it, so
//! that a file is decoded once and its lines are never copied.

use vstd::prelude::*;

verus! {

/// Appends `c` to `s`. Specifies `String::push`, which puts the given character
/// at the end of the text and leaves the rest of it as it was.
pub assume_specification[ String::push ](s: &mut String, c: char)
    ensures
        final(s)@ == old(s)@.push(c),
;

/// Whether `c` has the Unicode property `White_Space`.
pub open spec fn is_space(c: char) -> bool {
    ||| '\u{9}' <= c <= '\u{d}'
    ||| c == '\u{20}'
    ||| c == '\u{85}'
    ||| c == '\u{a0}'
    ||| c == '\u{1680}'
    ||| '\u{2000}' <= c <= '\u{200a}'
    ||| c == '\u{2028}'
    ||| c == '\u{2029}'
    ||| c == '\u{202f}'
    ||| c == '\u{205f}'
    ||| c == '\u{3000}'
}

/// `s` without its leading whitespace.
pub open spec fn trim_start(s: Seq<char>) -> Seq<char>
    decreases s.len(),
{
    if s.len() > 0 && is_space(s[0]) {
        trim_start(s.drop_first())
    } else {
        s
    }
}

/// `s` without its trailing whitespace.
pub open spec fn trim_end(s: Seq<char>) -> Seq<char>
    decreases s.len(),
{
    if s.len() > 0 && is_space(s.last()) {
        trim_end(s.drop_last())
    } else {
        s
    }
}

/// `s` without its leading and trailing whitespace.
pub open spec fn trim(s: Seq<char>) -> Seq<char> {
    trim_end(trim_start(s))
}

/// Whether `s` holds nothing but whitespace.
pub open spec fn is_blank(s: Seq<char>) -> bool {
    trim(s).len() == 0
}

/// Index of the first line feed of `s` at or after `from`, or the length of `s`.
pub open spec fn line_break(s: Seq<char>, from: int) -> int
    decreases s.len() - from,
{
    if from >= s.len() {
        s.len() as int
    } else if s[from] == '\n' {
        from
    } else {
        line_break(s, from + 1)
    }
}

/// `s` without one trailing carriage return.
pub open spec fn chomp(s: Seq<char>) -> Seq<char> {
    if s.len() > 0 && s.last() == '\r' {
        s.drop_last()
    } else {
        s
    }
}

/// The lines of `s` from index `from` on, where a line starts at `from`.
pub open spec fn lines_from(s: Seq<char>, from: int) -> Seq<Seq<char>>
    decreases s.len() - from,
{
    if from >= s.len() {
        Seq::empty()
    } else {
        let end = line_break(s, from);
        if from <= end < s.len() {
            seq![chomp(s.subrange(from, end))] + lines_from(s, end + 1)
        } else {
            seq![s.subrange(from, s.len() as int)]
        }
    }
}

/// The lines of `s`. A line ends with a line feed, or with a carriage return and a
/// line feed; neither belongs to the line. The last line may lack its ending.
pub open spec fn text_lines(s: Seq<char>) -> Seq<Seq<char>> {
    lines_from(s, 0)
}

/// The indices of the lines in `from..to` that are not blank, in order.
pub open spec fn nonblank(lines: Seq<Seq<char>>, from: int, to: int) -> Seq<int>
    decreases to - from,
{
    if to <= from {
        Seq::empty()
    } else if is_blank(lines[to - 1]) {
        nonblank(lines, from, to - 1)
    } else {
        nonblank(lines, from, to - 1).push(to - 1)
    }
}

/// The lines at the given indices, without surrounding whitespace.
pub open spec fn trimmed_at(lines: Seq<Seq<char>>, indices: Seq<int>) -> Seq<Seq<char>> {
    Seq::new(indices.len(), |k: int| trim(lines[indices[k]]))
}

/// The lines of `s` that are not blank, without surrounding whitespace.
pub open spec fn content_lines(s: Seq<char>) -> Seq<Seq<char>> {
    let lines = text_lines(s);
    trimmed_at(lines, nonblank(lines, 0, lines.len() as int))
}

/// The contents of a vector of indices.
pub open spec fn indices(v: Seq<usize>) -> Seq<int> {
    Seq::new(v.len(), |i: int| v[i] as int)
}

/// The contents of a vector of character vectors.
pub open spec fn char_lines(v: Seq<Vec<char>>) -> Seq<Seq<char>> {
    Seq::new(v.len(), |i: int| v[i]@)
}

/// The indices found lie in the range and grow.
pub proof fn lemma_nonblank(lines: Seq<Seq<char>>, from: int, to: int)
    ensures
        forall|k: int|
            0 <= k < nonblank(lines, from, to).len() ==> {
                let i = #[trigger] nonblank(lines, from, to)[k];
                from <= i < to && !is_blank(lines[i])
            },
        forall|j: int, k: int|
            0 <= j < k < nonblank(lines, from, to).len() ==> nonblank(lines, from, to)[j]
                < nonblank(lines, from, to)[k],
        forall|i: int|
            from <= i < to && !is_blank(#[trigger] lines[i]) ==> nonblank(
                lines,
                from,
                to,
            ).contains(i),
    decreases to - from,
{
    if from < to {
        lemma_nonblank(lines, from, to - 1);
        let before = nonblank(lines, from, to - 1);
        let now = nonblank(lines, from, to);
        assert forall|i: int| from <= i < to && !is_blank(#[trigger] lines[i]) implies now.contains(
            i,
        ) by {
            if i < to - 1 {
                let k = choose|k: int| 0 <= k < before.len() && before[k] == i;
                assert(now[k] == i);
            } else {
                assert(now[now.len() - 1] == i);
            }
        }
    }
}

/// The indices found in a range are those found in its two parts.
pub proof fn lemma_nonblank_splits(lines: Seq<Seq<char>>, from: int, mid: int, to: int)
    requires
        from <= mid <= to,
    ensures
        nonblank(lines, from, to) == nonblank(lines, from, mid) + nonblank(lines, mid, to),
    decreases to - mid,
{
    if mid < to {
        lemma_nonblank_splits(lines, from, mid, to - 1);
    }
    assert(nonblank(lines, from, to) =~= nonblank(lines, from, mid) + nonblank(lines, mid, to));
}

/// Where the lines of `b` are those of `a` moved down by `shift`, and their indentation
/// aside, the lines found are the same.
pub proof fn lemma_nonblank_moved(
    a: Seq<Seq<char>>,
    b: Seq<Seq<char>>,
    from: int,
    to: int,
    shift: int,
)
    requires
        forall|i: int| from <= i < to ==> trim(#[trigger] a[i]) == trim(b[i + shift]),
    ensures
        trimmed_at(a, nonblank(a, from, to)) == trimmed_at(
            b,
            nonblank(b, from + shift, to + shift),
        ),
    decreases to - from,
{
    if from < to {
        lemma_nonblank_moved(a, b, from, to - 1, shift);
        let end = to + shift;
        let x = nonblank(a, from, to - 1);
        let y = nonblank(b, from + shift, end - 1);
        assert(trim(a[to - 1]) == trim(b[end - 1]));
        assert(trimmed_at(a, x) == trimmed_at(b, y));
        assert(trimmed_at(a, x.push(to - 1)) =~= trimmed_at(a, x).push(trim(a[to - 1])));
        assert(trimmed_at(b, y.push(end - 1)) =~= trimmed_at(b, y).push(trim(b[end - 1])));
    } else {
        assert(trimmed_at(a, nonblank(a, from, to)) =~= trimmed_at(
            b,
            nonblank(b, from + shift, to + shift),
        ));
    }
}

/// Lines that are the same without surrounding whitespace have the same content:
/// indentation does not count.
pub proof fn law_indentation_does_not_count(a: Seq<char>, b: Seq<char>)
    requires
        text_lines(a).len() == text_lines(b).len(),
        forall|i: int|
            0 <= i < text_lines(a).len() ==> trim(#[trigger] text_lines(a)[i]) == trim(
                text_lines(b)[i],
            ),
    ensures
        content_lines(a) == content_lines(b),
{
    lemma_nonblank_moved(text_lines(a), text_lines(b), 0, text_lines(a).len() as int, 0);
}

/// A text with a blank line put in has the same content as before: blank lines do not
/// count.
pub proof fn law_blank_lines_do_not_count(a: Seq<char>, b: Seq<char>, at: int, line: Seq<char>)
    requires
        0 <= at <= text_lines(a).len(),
        is_blank(line),
        text_lines(b) == text_lines(a).insert(at, line),
    ensures
        content_lines(a) == content_lines(b),
{
    let x = text_lines(a);
    let y = text_lines(b);
    let len = x.len() as int;
    lemma_nonblank_splits(x, 0, at, len);
    lemma_nonblank_splits(y, 0, at, len + 1);
    lemma_nonblank_splits(y, at, at + 1, len + 1);
    assert(nonblank(y, at, at + 1) =~= Seq::empty()) by {
        assert(y[at] == line);
        assert(nonblank(y, at, at) =~= Seq::empty());
    }
    lemma_nonblank_moved(x, y, 0, at, 0);
    assert forall|i: int| at <= i < len implies trim(#[trigger] x[i]) == trim(y[i + 1]) by {}
    lemma_nonblank_moved(x, y, at, len, 1);
    let head = nonblank(x, 0, at);
    let tail = nonblank(x, at, len);
    assert(trimmed_at(x, head + tail) =~= trimmed_at(x, head) + trimmed_at(x, tail));
    let head_y = nonblank(y, 0, at);
    let tail_y = nonblank(y, at + 1, len + 1);
    assert(Seq::<int>::empty() + tail_y =~= tail_y);
    assert(trimmed_at(y, head_y + tail_y) =~= trimmed_at(y, head_y) + trimmed_at(y, tail_y));
}

/// Dropping leading whitespace takes away whitespace only, and all of it.
pub proof fn law_trim_start_drops_all_leading_space(s: Seq<char>)
    ensures
        exists|i: int|
            0 <= i <= s.len() && trim_start(s) == #[trigger] s.skip(i) && (forall|k: int|
                0 <= k < i ==> is_space(#[trigger] s[k])) && (i < s.len() ==> !is_space(s[i])),
    decreases s.len(),
{
    if s.len() > 0 && is_space(s[0]) {
        let rest = s.drop_first();
        law_trim_start_drops_all_leading_space(rest);
        let i = choose|i: int|
            0 <= i <= rest.len() && trim_start(rest) == #[trigger] rest.skip(i) && (forall|k: int|
                0 <= k < i ==> is_space(#[trigger] rest[k])) && (i < rest.len() ==> !is_space(
                rest[i],
            ));
        assert(s.skip(i + 1) =~= rest.skip(i));
        assert forall|k: int| 0 <= k < i + 1 implies is_space(#[trigger] s[k]) by {
            if k > 0 {
                assert(s[k] == rest[k - 1]);
            }
        }
    } else {
        assert(s.skip(0) =~= s);
    }
}

/// Dropping trailing whitespace takes away whitespace only, and all of it.
proof fn lemma_trim_end_drops_all_trailing_space(s: Seq<char>)
    ensures
        exists|j: int|
            0 <= j <= s.len() && trim_end(s) == #[trigger] s.take(j) && (forall|k: int|
                j <= k < s.len() ==> is_space(#[trigger] s[k])) && (0 < j ==> !is_space(s[j - 1])),
    decreases s.len(),
{
    if s.len() > 0 && is_space(s.last()) {
        let rest = s.drop_last();
        lemma_trim_end_drops_all_trailing_space(rest);
        let j = choose|j: int|
            0 <= j <= rest.len() && trim_end(rest) == #[trigger] rest.take(j) && (forall|k: int|
                j <= k < rest.len() ==> is_space(#[trigger] rest[k])) && (0 < j ==> !is_space(
                rest[j - 1],
            ));
        assert(s.take(j) =~= rest.take(j));
        assert forall|k: int| j <= k < s.len() implies is_space(#[trigger] s[k]) by {
            if k < rest.len() {
                assert(s[k] == rest[k]);
            }
        }
    } else {
        assert(s.take(s.len() as int) =~= s);
    }
}

/// What is left once surrounding whitespace is dropped is a part of the text: all around it
/// is whitespace, and it neither begins nor ends with whitespace.
pub proof fn law_trim_drops_all_outer_space(s: Seq<char>)
    ensures
        exists|i: int, j: int|
            0 <= i <= j <= s.len() && trim(s) == #[trigger] s.subrange(i, j) && (forall|k: int|
                0 <= k < i || j <= k < s.len() ==> is_space(#[trigger] s[k])) && (i < j
                ==> !is_space(s[i]) && !is_space(s[j - 1])),
{
    law_trim_start_drops_all_leading_space(s);
    let i = choose|i: int|
        0 <= i <= s.len() && trim_start(s) == #[trigger] s.skip(i) && (forall|k: int|
            0 <= k < i ==> is_space(#[trigger] s[k])) && (i < s.len() ==> !is_space(s[i]));
    let rest = s.skip(i);
    lemma_trim_end_drops_all_trailing_space(rest);
    let j = choose|j: int|
        0 <= j <= rest.len() && trim_end(rest) == #[trigger] rest.take(j) && (forall|k: int|
            j <= k < rest.len() ==> is_space(#[trigger] rest[k])) && (0 < j ==> !is_space(
            rest[j - 1],
        ));
    assert(s.subrange(i, i + j) =~= rest.take(j));
    assert forall|k: int| 0 <= k < i || i + j <= k < s.len() implies is_space(#[trigger] s[k]) by {
        if k >= i + j {
            assert(s[k] == rest[k - i]);
        }
    }
    if j > 0 {
        assert(rest[0] == s[i] && rest[j - 1] == s[i + j - 1]);
    }
}

/// A break is found where the first line feed stands.
proof fn lemma_line_break(s: Seq<char>, from: int, at: int)
    requires
        0 <= from <= at <= s.len(),
        forall|k: int| from <= k < at ==> s[k] != '\n',
        at < s.len() ==> s[at] == '\n',
    ensures
        line_break(s, from) == at,
    decreases at - from,
{
    if from < at {
        lemma_line_break(s, from + 1, at);
    }
}

/// The lines after a prefix are those of what follows it.
proof fn lemma_lines_after(a: Seq<char>, b: Seq<char>, from: int)
    requires
        0 <= from,
    ensures
        lines_from(a + b, a.len() + from) == lines_from(b, from),
    decreases b.len() - from,
{
    let s = a + b;
    let n = a.len() as int;
    if from < b.len() {
        lemma_line_break_after(a, b, from);
        let end = line_break(b, from);
        if from <= end < b.len() {
            assert(s.subrange(n + from, n + end) =~= b.subrange(from, end));
            lemma_lines_after(a, b, end + 1);
        } else {
            assert(s.subrange(n + from, s.len() as int) =~= b.subrange(from, b.len() as int));
        }
    } else {
        assert(lines_from(s, n + from) =~= lines_from(b, from));
    }
}

proof fn lemma_line_break_after(a: Seq<char>, b: Seq<char>, from: int)
    requires
        0 <= from <= b.len(),
    ensures
        line_break(a + b, a.len() + from) == a.len() + line_break(b, from),
    decreases b.len() - from,
{
    if from < b.len() {
        assert((a + b)[a.len() + from] == b[from]);
        lemma_line_break_after(a, b, from + 1);
    }
}

/// A line feed ends a line, and a carriage return right before it belongs to the ending. What
/// follows is split on its own.
pub proof fn law_line_feed_ends_a_line(a: Seq<char>, b: Seq<char>)
    requires
        !a.contains('\n'),
    ensures
        text_lines(a + seq!['\n'] + b) == seq![
            if a.len() > 0 && a.last() == '\r' {
                a.drop_last()
            } else {
                a
            },
        ] + text_lines(b),
{
    let s = a + seq!['\n'] + b;
    let n = a.len() as int;
    assert forall|k: int| 0 <= k < n implies s[k] != '\n' by {
        assert(a.contains(a[k]));
    }
    lemma_line_break(s, 0, n);
    assert(s.subrange(0, n) =~= a);
    lemma_lines_after(a + seq!['\n'], b, 0);
}

/// A text without a line feed is one line, and an empty text is none.
pub proof fn law_last_line_needs_no_ending(a: Seq<char>)
    requires
        !a.contains('\n'),
    ensures
        text_lines(a) == (if a.len() == 0 {
            Seq::empty()
        } else {
            seq![a]
        }),
{
    let n = a.len() as int;
    assert forall|k: int| 0 <= k < n implies a[k] != '\n' by {
        assert(a.contains(a[k]));
    }
    lemma_line_break(a, 0, n);
    if n > 0 {
        assert(a.subrange(0, n) =~= a);
    } else {
        assert(text_lines(a) =~= Seq::empty());
    }
}

/// The lines found in a range are, without surrounding whitespace, those of its lines that
/// hold more than whitespace, each of them and in their order.
pub proof fn lemma_nonblank_is_filtered(lines: Seq<Seq<char>>, from: int, to: int)
    requires
        0 <= from <= to <= lines.len(),
    ensures
        trimmed_at(lines, nonblank(lines, from, to)) == lines.subrange(from, to).filter_map(
            |l: Seq<char>|
                if trim(l).len() > 0 {
                    Some(trim(l))
                } else {
                    None
                },
        ),
    decreases to - from,
{
    let part = lines.subrange(from, to);
    let keep = |l: Seq<char>|
        if trim(l).len() > 0 {
            Some(trim(l))
        } else {
            None
        };
    if from < to {
        lemma_nonblank_is_filtered(lines, from, to - 1);
        let before = nonblank(lines, from, to - 1);
        assert(part.drop_last() =~= lines.subrange(from, to - 1));
        assert(part.last() == lines[to - 1]);
        if !is_blank(lines[to - 1]) {
            assert(trimmed_at(lines, before.push(to - 1)) =~= trimmed_at(lines, before) + seq![
                trim(lines[to - 1]),
            ]);
        }
        assert(part.filter_map(keep) == part.drop_last().filter_map(keep) + (if trim(
            part.last(),
        ).len() > 0 {
            seq![trim(part.last())]
        } else {
            Seq::empty()
        }));
    } else {
        assert(trimmed_at(lines, nonblank(lines, from, to)) =~= Seq::empty());
    }
}

/// The content of a text is that of its lines, without surrounding whitespace, of which
/// something is left: each of them, in their order.
pub proof fn law_content_is_every_line_that_is_not_blank(s: Seq<char>)
    ensures
        content_lines(s) == text_lines(s).filter_map(
            |l: Seq<char>|
                if trim(l).len() > 0 {
                    Some(trim(l))
                } else {
                    None
                },
        ),
{
    let lines = text_lines(s);
    lemma_nonblank_is_filtered(lines, 0, lines.len() as int);
    assert(lines.subrange(0, lines.len() as int) =~= lines);
}

/// The texts of `parts`, with `sep` between each two of them.
pub open spec fn join(parts: Seq<Seq<char>>, sep: Seq<char>) -> Seq<char>
    decreases parts.len(),
{
    if parts.len() == 0 {
        Seq::empty()
    } else if parts.len() == 1 {
        parts[0]
    } else {
        join(parts.drop_last(), sep) + sep + parts.last()
    }
}

/// One part alone is joined to itself, and each further part comes after one more separator.
pub proof fn law_join_puts_a_separator_between(parts: Seq<Seq<char>>, sep: Seq<char>, part: Seq<char>)
    ensures
        join(Seq::<Seq<char>>::empty(), sep) == Seq::<char>::empty(),
        join(parts.push(part), sep) == (if parts.len() == 0 {
            part
        } else {
            join(parts, sep) + sep + part
        }),
{
    assert(parts.push(part).drop_last() =~= parts);
}

/// Two lists of parts are joined one after the other.
pub proof fn lemma_join_splits(a: Seq<Seq<char>>, b: Seq<Seq<char>>, sep: Seq<char>)
    requires
        a.len() > 0,
        b.len() > 0,
    ensures
        join(a + b, sep) == join(a, sep) + sep + join(b, sep),
    decreases b.len(),
{
    let whole = a + b;
    let init = b.drop_last();
    assert(whole.last() == b.last());
    assert(whole.drop_last() =~= a + init);
    if init.len() == 0 {
        assert(a + init =~= a);
    } else {
        lemma_join_splits(a, init, sep);
        assert(join(a, sep) + sep + join(init, sep) + sep + b.last() =~= join(a, sep) + sep + (join(
            init,
            sep,
        ) + sep + b.last()));
    }
}

/// Whether `part` stands in `s`.
pub open spec fn shows(s: Seq<char>, part: Seq<char>) -> bool {
    exists|i: int|
        0 <= i && i + part.len() <= s.len() && #[trigger] s.subrange(i, i + part.len()) == part
}

/// Whether `s` neither begins nor ends with whitespace, and is not empty.
pub open spec fn is_trimmed(s: Seq<char>) -> bool {
    s.len() > 0 && !is_space(s[0]) && !is_space(s.last())
}

/// What stands in a part of a text stands in the text.
pub proof fn lemma_shows_in_more(before: Seq<char>, s: Seq<char>, after: Seq<char>, part: Seq<char>)
    requires
        shows(s, part),
    ensures
        shows(before + s + after, part),
{
    let i = choose|i: int|
        0 <= i && i + part.len() <= s.len() && #[trigger] s.subrange(i, i + part.len()) == part;
    let whole = before + s + after;
    let j = before.len() + i;
    assert(whole.subrange(j, j + part.len()) =~= s.subrange(i, i + part.len()));
}

/// A text stands in itself.
pub proof fn lemma_shows_itself(s: Seq<char>)
    ensures
        shows(s, s),
{
    assert(s.subrange(0int, 0int + s.len()) =~= s);
}

/// What stands in a text that stands in another stands in that one.
pub proof fn lemma_shows_is_transitive(a: Seq<char>, b: Seq<char>, c: Seq<char>)
    requires
        shows(a, b),
        shows(b, c),
    ensures
        shows(a, c),
{
    let i = choose|i: int|
        0 <= i && i + b.len() <= a.len() && #[trigger] a.subrange(i, i + b.len()) == b;
    assert(a =~= a.subrange(0, i) + b + a.subrange(i + b.len(), a.len() as int)) by {
        assert(a.subrange(i, i + b.len()) == b);
    }
    lemma_shows_in_more(a.subrange(0, i), b, a.subrange(i + b.len(), a.len() as int), c);
}

/// Each part stands in the text they are joined to.
pub proof fn lemma_join_shows(parts: Seq<Seq<char>>, sep: Seq<char>, k: int)
    requires
        0 <= k < parts.len(),
    ensures
        shows(join(parts, sep), parts[k]),
    decreases parts.len(),
{
    if parts.len() == 1 {
        lemma_shows_itself(parts[0]);
    } else {
        let init = join(parts.drop_last(), sep);
        let last = parts.last();
        if k == parts.len() - 1 {
            lemma_shows_itself(last);
            lemma_shows_in_more(init + sep, last, Seq::empty(), last);
            assert(init + sep + last + Seq::<char>::empty() =~= init + sep + last);
        } else {
            lemma_join_shows(parts.drop_last(), sep, k);
            lemma_shows_in_more(Seq::empty(), init, sep + last, parts[k]);
            assert(Seq::<char>::empty() + init + (sep + last) =~= init + sep + last);
        }
    }
}

/// Dropping the whitespace around a text keeps what it begins with, and all of it where only
/// whitespace follows.
pub proof fn lemma_trim_keeps_front(front: Seq<char>, rest: Seq<char>)
    requires
        is_trimmed(front),
    ensures
        front.is_prefix_of(trim(front + rest)),
        (forall|i: int| 0 <= i < rest.len() ==> is_space(#[trigger] rest[i])) ==> trim(
            front + rest,
        ) == front,
        rest.len() > 0 && !is_space(rest.last()) ==> trim(front + rest) == front + rest,
    decreases rest.len(),
{
    let s = front + rest;
    assert(s[0] == front[0]);
    assert(trim_start(s) == s);
    if rest.len() == 0 {
        assert(s =~= front);
        assert(s.subrange(0, front.len() as int) =~= front);
    } else {
        assert(s.last() == rest.last());
        assert(s.subrange(0, front.len() as int) =~= front);
        if is_space(rest.last()) {
            let less = rest.drop_last();
            assert(s.drop_last() =~= front + less);
            lemma_trim_keeps_front(front, less);
            assert((front + less)[0] == front[0]);
            assert(trim_start(front + less) == front + less);
            if forall|i: int| 0 <= i < rest.len() ==> is_space(#[trigger] rest[i]) {
                assert forall|i: int| 0 <= i < less.len() implies is_space(#[trigger] less[i]) by {
                    assert(less[i] == rest[i]);
                }
            }
        }
    }
}

/// Dropping the whitespace around a text keeps what stands in it.
pub proof fn lemma_trim_shows(s: Seq<char>, part: Seq<char>)
    requires
        shows(s, part),
        is_trimmed(part),
    ensures
        shows(trim(s), part),
{
    lemma_trim_start_shows(s, part);
    lemma_trim_end_shows(trim_start(s), part);
}

proof fn lemma_trim_start_shows(s: Seq<char>, part: Seq<char>)
    requires
        shows(s, part),
        is_trimmed(part),
    ensures
        shows(trim_start(s), part),
    decreases s.len(),
{
    if s.len() > 0 && is_space(s[0]) {
        let i = choose|i: int|
            0 <= i && i + part.len() <= s.len() && #[trigger] s.subrange(i, i + part.len())
                == part;
        assert(s.subrange(i, i + part.len())[0] == s[i]);
        let rest = s.drop_first();
        let j = i - 1;
        assert(rest.subrange(j, j + part.len()) =~= s.subrange(i, i + part.len()));
        lemma_trim_start_shows(rest, part);
    }
}

proof fn lemma_trim_end_shows(s: Seq<char>, part: Seq<char>)
    requires
        shows(s, part),
        is_trimmed(part),
    ensures
        shows(trim_end(s), part),
    decreases s.len(),
{
    if s.len() > 0 && is_space(s.last()) {
        let i = choose|i: int|
            0 <= i && i + part.len() <= s.len() && #[trigger] s.subrange(i, i + part.len())
                == part;
        assert(s.subrange(i, i + part.len()).last() == s[i + part.len() - 1]);
        let rest = s.drop_last();
        assert(rest.subrange(i, i + part.len()) =~= s.subrange(i, i + part.len()));
        lemma_trim_end_shows(rest, part);
    }
}

/// Whether `a` comes before `b` in the order of their characters.
pub open spec fn text_less(a: Seq<char>, b: Seq<char>) -> bool
    decreases a.len(),
{
    if b.len() == 0 {
        false
    } else if a.len() == 0 {
        true
    } else if a[0] != b[0] {
        a[0] < b[0]
    } else {
        text_less(a.drop_first(), b.drop_first())
    }
}

/// Of two texts that differ, one comes before the other.
pub proof fn law_text_order_is_total(a: Seq<char>, b: Seq<char>)
    ensures
        a == b || text_less(a, b) || text_less(b, a),
    decreases a.len(),
{
    if a.len() > 0 && b.len() > 0 && a[0] == b[0] {
        law_text_order_is_total(a.drop_first(), b.drop_first());
        if a.drop_first() == b.drop_first() {
            assert(a =~= seq![a[0]] + a.drop_first());
            assert(b =~= seq![b[0]] + b.drop_first());
        }
    } else if a.len() == 0 && b.len() == 0 {
        assert(a =~= b);
    }
}

/// No text comes before itself.
pub proof fn law_text_order_is_irreflexive(a: Seq<char>)
    ensures
        !text_less(a, a),
    decreases a.len(),
{
    if a.len() > 0 {
        law_text_order_is_irreflexive(a.drop_first());
    }
}

/// What comes before a text comes before all that come after it.
pub proof fn law_text_order_is_transitive(a: Seq<char>, b: Seq<char>, c: Seq<char>)
    requires
        text_less(a, b),
        text_less(b, c),
    ensures
        text_less(a, c),
    decreases a.len(),
{
    if a.len() > 0 && a[0] == b[0] && b[0] == c[0] {
        law_text_order_is_transitive(a.drop_first(), b.drop_first(), c.drop_first());
    }
}

/// The first character in which two texts differ decides their order, by code point. Where
/// there is none, the shorter text comes first.
pub proof fn law_first_difference_decides(a: Seq<char>, b: Seq<char>, i: int)
    requires
        0 <= i <= a.len(),
        i <= b.len(),
        a.take(i) == b.take(i),
        i < a.len() && i < b.len() ==> a[i] != b[i],
    ensures
        text_less(a, b) <==> i < b.len() && (i == a.len() || (a[i] as int) < (b[i] as int)),
    decreases i,
{
    if i > 0 {
        assert(a[0] == a.take(i)[0] && b[0] == b.take(i)[0]);
        let (x, y) = (a.drop_first(), b.drop_first());
        assert(i < a.len() ==> x[i - 1] == a[i]);
        assert(i < b.len() ==> y[i - 1] == b[i]);
        assert(x.take(i - 1) =~= a.take(i).drop_first());
        assert(y.take(i - 1) =~= b.take(i).drop_first());
        law_first_difference_decides(x, y, i - 1);
    }
}

/// The decimal digit `d`.
pub open spec fn digit_char(d: int) -> char {
    (48 + d) as char
}

/// The decimal digits of `n`, without leading zeros.
pub open spec fn digits(n: nat) -> Seq<char>
    decreases n,
{
    if n < 10 {
        seq![digit_char(n as int)]
    } else {
        digits(n / 10).push(digit_char((n % 10) as int))
    }
}

/// `n` in decimal notation.
pub open spec fn decimal(n: int) -> Seq<char> {
    if n < 0 {
        seq!['-'] + digits((-n) as nat)
    } else {
        digits(n as nat)
    }
}

/// Decimal notation is by position: a digit at the end counts one, and what is before it ten
/// times as much. A negative number has a sign in front.
pub proof fn law_decimal_is_by_position(n: int, d: int)
    requires
        0 <= n,
        0 <= d < 10,
    ensures
        decimal(10 * n + d) == (if n == 0 {
            Seq::empty()
        } else {
            decimal(n)
        }).push(seq!['0', '1', '2', '3', '4', '5', '6', '7', '8', '9'][d]),
        n > 0 ==> decimal(-n) == seq!['-'] + decimal(n),
{
    let m = (10 * n + d) as nat;
    assert(m / 10 == n && m % 10 == d) by (nonlinear_arith)
        requires
            m == 10 * n + d,
            0 <= d < 10,
            0 <= n,
    ;
    assert(Seq::<char>::empty().push(digit_char(d)) =~= seq![digit_char(d)]);
    assert(digit_char(d) == seq!['0', '1', '2', '3', '4', '5', '6', '7', '8', '9'][d]);
}

/// The texts of a sequence of strings.
pub open spec fn texts(strings: Seq<String>) -> Seq<Seq<char>> {
    Seq::new(strings.len(), |i: int| strings[i]@)
}

/// The text of an optional string.
pub open spec fn optional(s: Option<String>) -> Option<Seq<char>> {
    match s {
        Some(t) => Some(t@),
        None => None,
    }
}

/// The texts of strings are those of each of them, in their order.
pub proof fn law_texts_are_those_of_the_strings(strings: Seq<String>, s: Option<String>)
    ensures
        texts(strings) == strings.map_values(|s: String| s@),
        s is Some <==> optional(s) is Some,
        s matches Some(t) ==> optional(s) == Some(t@),
{
    assert(texts(strings) =~= strings.map_values(|s: String| s@));
}

/// The characters of `text`.
pub fn to_chars(text: &str) -> (r: Vec<char>)
    ensures
        r@ == text@,
{
    let mut r: Vec<char> = Vec::new();
    for c in iter: text.chars()
        invariant
            iter.seq() == text@,
            r@ == text@.take(iter.index()),
    {
        r.push(c);
        assert(text@.take(iter.index() + 1) == text@.take(iter.index()).push(c));
    }
    r
}

/// The text of the characters of `chars` in `start..end`.
pub fn from_chars(chars: &Vec<char>, start: usize, end: usize) -> (r: String)
    requires
        start <= end <= chars@.len(),
    ensures
        r@ == chars@.subrange(start as int, end as int),
{
    let mut r: String = String::new();
    let mut i: usize = start;
    while i < end
        invariant
            start <= i <= end <= chars@.len(),
            r@ == chars@.subrange(start as int, i as int),
        decreases end - i,
    {
        r.push(chars[i]);
        i += 1;
    }
    r
}

/// Whether `a` and `b` are the same text.
pub fn same_text(a: &str, b: &str) -> (r: bool)
    ensures
        r == (a@ == b@),
{
    let x: Vec<char> = to_chars(a);
    let y: Vec<char> = to_chars(b);
    assert(x@.subrange(0, x@.len() as int) == x@);
    x.len() == y.len() && has_prefix(&x, 0, x.len(), &y)
}

/// Whether the characters of `chars` in `start..end` begin with `prefix`.
pub fn has_prefix(chars: &Vec<char>, start: usize, end: usize, prefix: &Vec<char>) -> (r: bool)
    requires
        start <= end <= chars@.len(),
    ensures
        r == prefix@.is_prefix_of(chars@.subrange(start as int, end as int)),
{
    if prefix.len() > end - start {
        return false;
    }
    let mut i: usize = 0;
    while i < prefix.len()
        invariant
            start <= end <= chars@.len(),
            prefix@.len() <= end - start,
            i <= prefix@.len(),
            forall|j: int| 0 <= j < i ==> prefix@[j] == chars@[start + j],
        decreases prefix@.len() - i,
    {
        if prefix[i] != chars[start + i] {
            assert(prefix@[i as int] != chars@.subrange(start as int, end as int)[i as int]);
            return false;
        }
        i += 1;
    }
    true
}

/// Whether `a` comes before `b` in the order of their characters.
pub fn is_less(a: &str, b: &str) -> (r: bool)
    ensures
        r == text_less(a@, b@),
{
    let x: Vec<char> = to_chars(a);
    let y: Vec<char> = to_chars(b);
    let mut i: usize = 0;
    assert(x@.skip(0) == x@ && y@.skip(0) == y@);
    while i < x.len() && i < y.len()
        invariant
            x@ == a@,
            y@ == b@,
            i <= x@.len(),
            i <= y@.len(),
            text_less(a@, b@) == text_less(x@.skip(i as int), y@.skip(i as int)),
        decreases x@.len() - i,
    {
        assert(x@.skip(i as int).drop_first() == x@.skip(i + 1));
        assert(y@.skip(i as int).drop_first() == y@.skip(i + 1));
        if x[i] != y[i] {
            return x[i] < y[i];
        }
        i += 1;
    }
    i < y.len()
}

/// Whether `c` is whitespace.
pub fn is_whitespace(c: char) -> (r: bool)
    ensures
        r == is_space(c),
{
    ('\u{9}' <= c && c <= '\u{d}') || c == '\u{20}' || c == '\u{85}' || c == '\u{a0}' || c
        == '\u{1680}' || ('\u{2000}' <= c && c <= '\u{200a}') || c == '\u{2028}' || c == '\u{2029}'
        || c == '\u{202f}' || c == '\u{205f}' || c == '\u{3000}'
}

/// The start of the text in `start..end` once its leading whitespace is dropped.
pub fn skip_space(chars: &Vec<char>, start: usize, end: usize) -> (r: usize)
    requires
        start <= end <= chars@.len(),
    ensures
        start <= r <= end,
        chars@.subrange(r as int, end as int) == trim_start(
            chars@.subrange(start as int, end as int),
        ),
{
    let mut i: usize = start;
    while i < end && is_whitespace(chars[i])
        invariant
            start <= i <= end <= chars@.len(),
            trim_start(chars@.subrange(i as int, end as int)) == trim_start(
                chars@.subrange(start as int, end as int),
            ),
        decreases end - i,
    {
        assert(chars@.subrange(i as int, end as int).drop_first() == chars@.subrange(
            i + 1,
            end as int,
        ));
        i += 1;
    }
    i
}

/// The end of the text in `start..end` once its trailing whitespace is dropped.
pub fn drop_space(chars: &Vec<char>, start: usize, end: usize) -> (r: usize)
    requires
        start <= end <= chars@.len(),
    ensures
        start <= r <= end,
        chars@.subrange(start as int, r as int) == trim_end(
            chars@.subrange(start as int, end as int),
        ),
{
    let mut i: usize = end;
    while i > start && is_whitespace(chars[i - 1])
        invariant
            start <= i <= end <= chars@.len(),
            trim_end(chars@.subrange(start as int, i as int)) == trim_end(
                chars@.subrange(start as int, end as int),
            ),
        decreases i - start,
    {
        assert(chars@.subrange(start as int, i as int).drop_last() == chars@.subrange(
            start as int,
            i - 1,
        ));
        i -= 1;
    }
    i
}

/// The range of the text in `start..end` without surrounding whitespace.
pub fn trim_range(chars: &Vec<char>, start: usize, end: usize) -> (r: (usize, usize))
    requires
        start <= end <= chars@.len(),
    ensures
        start <= r.0 <= r.1 <= end,
        chars@.subrange(r.0 as int, r.1 as int) == trim(chars@.subrange(start as int, end as int)),
{
    let from: usize = skip_space(chars, start, end);
    let to: usize = drop_space(chars, from, end);
    (from, to)
}

/// `text` without its leading and trailing whitespace.
pub fn trimmed(text: &str) -> (r: String)
    ensures
        r@ == trim(text@),
{
    let chars: Vec<char> = to_chars(text);
    let (start, end): (usize, usize) = trim_range(&chars, 0, chars.len());
    assert(chars@.subrange(0, chars@.len() as int) == text@);
    from_chars(&chars, start, end)
}

/// The texts of `parts`, with `sep` between each two of them.
pub fn joined(parts: &Vec<String>, sep: &str) -> (r: String)
    ensures
        r@ == join(texts(parts@), sep@),
{
    let mut r: String = String::new();
    let mut i: usize = 0;
    while i < parts.len()
        invariant
            i <= parts@.len(),
            r@ == join(texts(parts@).take(i as int), sep@),
        decreases parts@.len() - i,
    {
        let ghost next = texts(parts@).take(i + 1);
        assert(next.drop_last() == texts(parts@).take(i as int));
        if i > 0 {
            r.append(sep);
        }
        r.append(parts[i].as_str());
        i += 1;
    }
    assert(texts(parts@).take(i as int) == texts(parts@));
    r
}

/// The decimal digits of `n`.
fn unsigned_decimal(n: u128) -> (r: String)
    ensures
        r@ == digits(n as nat),
    decreases n,
{
    let mut r: String = if n < 10 {
        String::new()
    } else {
        unsigned_decimal(n / 10)
    };
    let d: u8 = (n % 10) as u8;
    r.push((48u8 + d) as char);
    r
}

/// `n` in decimal notation.
pub fn to_decimal(n: i128) -> (r: String)
    ensures
        r@ == decimal(n as int),
{
    if n < 0 {
        let mut r: String = String::new();
        r.push('-');
        let magnitude: u128 = (-(n + 1)) as u128 + 1;
        r.append(unsigned_decimal(magnitude).as_str());
        r
    } else {
        unsigned_decimal(n as u128)
    }
}

/// Opening braces less closing braces in `line`.
pub open spec fn net_braces(line: Seq<char>) -> int
    decreases line.len(),
{
    if line.len() == 0 {
        0
    } else {
        net_braces(line.drop_last()) + (if line.last() == '{' {
            1int
        } else if line.last() == '}' {
            -1int
        } else {
            0int
        })
    }
}

/// The braces of a line are counted one by one.
pub proof fn law_braces_are_counted(line: Seq<char>)
    ensures
        net_braces(line) == line.to_multiset().count('{') - line.to_multiset().count('}'),
    decreases line.len(),
{
    if line.len() > 0 {
        law_braces_are_counted(line.drop_last());
        assert(line =~= line.drop_last().push(line.last()));
        vstd::seq_lib::to_multiset_build(line.drop_last(), line.last());
    } else {
        line.to_multiset_ensures();
        assert(!line.contains('{') && !line.contains('}'));
    }
}

/// The lines of a text, as ranges into its characters.
pub struct TextLines {
    chars: Vec<char>,
    spans: Vec<(usize, usize)>,
}

impl View for TextLines {
    type V = Seq<Seq<char>>;

    closed spec fn view(&self) -> Seq<Seq<char>> {
        span_texts(self.chars@, self.spans@)
    }
}

/// The texts of the given ranges of `chars`.
spec fn span_texts(chars: Seq<char>, spans: Seq<(usize, usize)>) -> Seq<Seq<char>> {
    Seq::new(spans.len(), |i: int| chars.subrange(spans[i].0 as int, spans[i].1 as int))
}

/// The ranges lie in a text of `len` characters, one after the other.
spec fn spans_fit(spans: Seq<(usize, usize)>, len: nat) -> bool {
    &&& forall|i: int|
        0 <= i < spans.len() ==> (#[trigger] spans[i]).0 <= spans[i].1 <= len
    &&& forall|i: int, j: int|
        0 <= i < j < spans.len() ==> (#[trigger] spans[i]).1 <= (#[trigger] spans[j]).0
}

impl TextLines {
    #[verifier::type_invariant]
    spec fn wf(self) -> bool {
        spans_fit(self.spans@, self.chars@.len())
    }

    /// Index of the first character of line `i` in the text.
    pub closed spec fn offset(self, i: int) -> int {
        self.spans@[i].0 as int
    }

    /// The lines of `text`.
    pub fn split(text: &str) -> (r: TextLines)
        ensures
            r@ == text_lines(text@),
    {
        let chars: Vec<char> = to_chars(text);
        let mut spans: Vec<(usize, usize)> = Vec::new();
        let mut from: usize = 0;
        let len: usize = chars.len();
        assert(span_texts(chars@, spans@) + lines_from(chars@, 0) =~= text_lines(text@));
        while from < len
            invariant
                from <= len == chars@.len(),
                chars@ == text@,
                spans_fit(spans@, from as nat),
                span_texts(chars@, spans@) + lines_from(chars@, from as int) == text_lines(text@),
            decreases len - from,
        {
            let mut end: usize = from;
            while end < len && chars[end] != '\n'
                invariant
                    from <= end <= len == chars@.len(),
                    line_break(chars@, end as int) == line_break(chars@, from as int),
                decreases len - end,
            {
                end += 1;
            }
            let ghost before = span_texts(chars@, spans@);
            let ghost line;
            if end < len {
                let last: usize = if end > from && chars[end - 1] == '\r' {
                    end - 1
                } else {
                    end
                };
                proof {
                    line = chomp(chars@.subrange(from as int, end as int));
                    assert(chars@.subrange(from as int, last as int) == line);
                }
                spans.push((from, last));
                assert(span_texts(chars@, spans@) =~= before.push(line));
                assert(before + (seq![line] + lines_from(chars@, end + 1)) =~= before.push(line)
                    + lines_from(chars@, end + 1));
                from = end + 1;
            } else {
                proof {
                    line = chars@.subrange(from as int, len as int);
                }
                spans.push((from, len));
                assert(span_texts(chars@, spans@) =~= before.push(line));
                assert(lines_from(chars@, len as int) =~= Seq::empty());
                assert(before + seq![line] =~= before.push(line) + lines_from(chars@, len as int));
                from = len;
            }
        }
        assert(span_texts(chars@, spans@) =~= text_lines(text@));
        TextLines { chars, spans }
    }

    /// Number of lines.
    pub fn len(&self) -> (r: usize)
        ensures
            r == self@.len(),
    {
        self.spans.len()
    }

    /// Whether line `i`, without its indentation, begins with `prefix`.
    pub fn begins_with(&self, i: usize, prefix: &Vec<char>) -> (r: bool)
        requires
            i < self@.len(),
        ensures
            r == prefix@.is_prefix_of(trim_start(self@[i as int])),
    {
        proof {
            use_type_invariant(self);
        }
        let (start, end): (usize, usize) = self.spans[i];
        let from: usize = skip_space(&self.chars, start, end);
        has_prefix(&self.chars, from, end, prefix)
    }

    /// Whether line `i`, without surrounding whitespace, is `text`.
    pub fn is_text(&self, i: usize, text: &Vec<char>) -> (r: bool)
        requires
            i < self@.len(),
        ensures
            r == (trim(self@[i as int]) == text@),
    {
        proof {
            use_type_invariant(self);
        }
        let (start, end): (usize, usize) = self.spans[i];
        let (from, to): (usize, usize) = trim_range(&self.chars, start, end);
        let ghost line = self.chars@.subrange(from as int, to as int);
        assert(line.subrange(0, line.len() as int) == line);
        text.len() == to - from && has_prefix(&self.chars, from, to, text)
    }

    /// Whether line `i` holds nothing but whitespace.
    pub fn is_blank(&self, i: usize) -> (r: bool)
        requires
            i < self@.len(),
        ensures
            r == is_blank(self@[i as int]),
    {
        proof {
            use_type_invariant(self);
        }
        let (start, end): (usize, usize) = self.spans[i];
        let (from, to): (usize, usize) = trim_range(&self.chars, start, end);
        from == to
    }

    /// The indices of the lines in `from..to` that are not blank.
    pub fn nonblank_lines(&self, from: usize, to: usize) -> (r: Vec<usize>)
        requires
            from <= to <= self@.len(),
        ensures
            indices(r@) == nonblank(self@, from as int, to as int),
            forall|k: int| 0 <= k < r@.len() ==> from <= #[trigger] r@[k] < to,
    {
        let mut r: Vec<usize> = Vec::new();
        let mut i: usize = from;
        while i < to
            invariant
                from <= i <= to <= self@.len(),
                indices(r@) == nonblank(self@, from as int, i as int),
                forall|k: int| 0 <= k < r@.len() ==> from <= #[trigger] r@[k] < i,
            decreases to - i,
        {
            let ghost before = r@;
            if !self.is_blank(i) {
                r.push(i);
                assert(indices(r@) =~= indices(before).push(i as int));
            }
            i += 1;
        }
        r
    }

    /// The characters of line `i` without surrounding whitespace.
    pub fn trimmed_line(&self, i: usize) -> (r: Vec<char>)
        requires
            i < self@.len(),
        ensures
            r@ == trim(self@[i as int]),
    {
        proof {
            use_type_invariant(self);
        }
        let (start, end): (usize, usize) = self.spans[i];
        let (from, to): (usize, usize) = trim_range(&self.chars, start, end);
        let mut r: Vec<char> = Vec::new();
        let mut k: usize = from;
        while k < to
            invariant
                from <= k <= to <= self.chars@.len(),
                r@ == self.chars@.subrange(from as int, k as int),
            decreases to - k,
        {
            r.push(self.chars[k]);
            k += 1;
        }
        r
    }

    /// The opening braces less the closing braces of line `i`, and whether the line
    /// holds an opening brace.
    pub fn braces(&self, i: usize) -> (r: (i128, bool))
        requires
            i < self@.len(),
        ensures
            r.0 == net_braces(self@[i as int]),
            r.1 == self@[i as int].contains('{'),
            -self@[i as int].len() <= r.0 <= self@[i as int].len(),
            0 <= self.offset(i as int),
            self.offset(i as int) + self@[i as int].len() <= usize::MAX,
            i + 1 < self@.len() ==> self.offset(i as int) + self@[i as int].len() <= self.offset(
                i + 1,
            ),
    {
        proof {
            use_type_invariant(self);
        }
        let (start, end): (usize, usize) = self.spans[i];
        let mut net: i128 = 0;
        let mut opens: bool = false;
        let mut k: usize = start;
        while k < end
            invariant
                start <= k <= end <= self.chars@.len(),
                net == net_braces(self.chars@.subrange(start as int, k as int)),
                opens == self.chars@.subrange(start as int, k as int).contains('{'),
                -(k - start) <= net <= k - start,
            decreases end - k,
        {
            let ghost seen = self.chars@.subrange(start as int, k as int);
            let ghost next = self.chars@.subrange(start as int, k + 1);
            let c: char = self.chars[k];
            assert(next == seen.push(c));
            assert(next.drop_last() == seen);
            assert(next.contains('{') == (seen.contains('{') || c == '{')) by {
                if seen.contains('{') {
                    let j = choose|j: int| 0 <= j < seen.len() && seen[j] == '{';
                    assert(next[j] == '{');
                }
                if c == '{' {
                    assert(next[next.len() - 1] == '{');
                }
            }
            if c == '{' {
                net += 1;
                opens = true;
            } else if c == '}' {
                net -= 1;
            }
            k += 1;
        }
        (net, opens)
    }
}

/// The lines of `text` that are not blank, without surrounding whitespace.
pub fn split_content(text: &str) -> (r: Vec<Vec<char>>)
    ensures
        char_lines(r@) == content_lines(text@),
{
    let lines: TextLines = TextLines::split(text);
    let wanted: Vec<usize> = lines.nonblank_lines(0, lines.len());
    let mut r: Vec<Vec<char>> = Vec::new();
    let mut i: usize = 0;
    while i < wanted.len()
        invariant
            i <= wanted@.len(),
            r@.len() == i,
            forall|k: int| 0 <= k < wanted@.len() ==> #[trigger] wanted@[k] < lines@.len(),
            forall|k: int|
                0 <= k < i ==> (#[trigger] r@[k])@ == trim(lines@[wanted@[k] as int]),
        decreases wanted@.len() - i,
    {
        r.push(lines.trimmed_line(wanted[i]));
        i += 1;
    }
    assert(char_lines(r@) =~= content_lines(text@));
    r
}

} // verus!
