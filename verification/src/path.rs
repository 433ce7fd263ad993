//! Paths of Unix-like systems as text, with `/` between their components.
//!
//! A path is read as a sequence of components. Repeated separators, a trailing
//! separator and `.` components make no difference, save that a leading `.` is a
//! component of its own, as is the root. Two paths are the same where their
//! components are.

use crate::text::{self, from_chars, to_chars};
use vstd::prelude::*;

verus! {

/// Index of the first separator in `from..to`, or `to`.
pub open spec fn piece_end(s: Seq<char>, from: int, to: int) -> int
    decreases to - from,
{
    if from >= to {
        to
    } else if s[from] == '/' {
        from
    } else {
        piece_end(s, from + 1, to)
    }
}

/// Index after the last separator in `from..to`, or `from`.
pub open spec fn piece_start(s: Seq<char>, from: int, to: int) -> int
    decreases to - from,
{
    if to <= from {
        from
    } else if s[to - 1] == '/' {
        to
    } else {
        piece_start(s, from, to - 1)
    }
}

/// Whether a piece between separators is no component.
pub open spec fn is_skipped(piece: Seq<char>) -> bool {
    piece.len() == 0 || piece == seq!['.']
}

/// A piece ends in the range it starts in, and holds no separator.
pub proof fn lemma_piece_end(s: Seq<char>, from: int, to: int)
    requires
        from <= to,
    ensures
        from <= piece_end(s, from, to) <= to,
        piece_end(s, from, to) < to ==> s[piece_end(s, from, to)] == '/',
        forall|i: int| from <= i < piece_end(s, from, to) ==> s[i] != '/',
    decreases to - from,
{
    if from < to && s[from] != '/' {
        lemma_piece_end(s, from + 1, to);
    }
}

/// The last piece of a range starts in it, and holds no separator.
pub proof fn lemma_piece_start(s: Seq<char>, from: int, to: int)
    requires
        from <= to,
    ensures
        from <= piece_start(s, from, to) <= to,
        from < piece_start(s, from, to) ==> s[piece_start(s, from, to) - 1] == '/',
        forall|i: int| piece_start(s, from, to) <= i < to ==> s[i] != '/',
    decreases to - from,
{
    if from < to && s[to - 1] != '/' {
        lemma_piece_start(s, from, to - 1);
    }
}

/// The components in `from..to`, where a piece starts at `from`.
pub open spec fn body(s: Seq<char>, from: int, to: int) -> Seq<Seq<char>>
    decreases to - from + 1,
{
    if from >= to {
        Seq::empty()
    } else {
        let end = piece_end(s, from, to);
        proof {
            lemma_piece_end(s, from, to);
        }
        let rest = body(s, end + 1, to);
        if is_skipped(s.subrange(from, end)) {
            rest
        } else {
            seq![s.subrange(from, end)] + rest
        }
    }
}

/// Whether the path starts at the root.
pub open spec fn is_absolute(s: Seq<char>) -> bool {
    s.len() > 0 && s[0] == '/'
}

/// Whether the first component of the path is `.`.
pub open spec fn leads_with_dot(s: Seq<char>) -> bool {
    s.len() > 0 && s[0] == '.' && (s.len() == 1 || s[1] == '/')
}

/// Number of characters before the first ordinary component.
pub open spec fn head_len(s: Seq<char>) -> int {
    if is_absolute(s) || leads_with_dot(s) {
        1
    } else {
        0
    }
}

/// The root or the leading `.` of the path, as its first component.
pub open spec fn head(s: Seq<char>) -> Seq<Seq<char>> {
    if head_len(s) == 1 {
        seq![s.take(1)]
    } else {
        Seq::empty()
    }
}

/// The components of the path. The root is the component `/`.
pub open spec fn components(s: Seq<char>) -> Seq<Seq<char>> {
    head(s) + body(s, head_len(s), s.len() as int)
}

/// The end of the path text in `from..to` once trailing pieces that are no
/// components are dropped.
pub open spec fn trimmed_end(s: Seq<char>, from: int, to: int) -> int
    decreases to - from,
{
    if to <= from {
        to
    } else {
        let start = piece_start(s, from, to);
        proof {
            lemma_piece_start(s, from, to);
        }
        if !is_skipped(s.subrange(start, to)) {
            to
        } else if start > from {
            trimmed_end(s, from, start - 1)
        } else {
            from
        }
    }
}

/// Start of the `n`-th component in `from..to`, counted from zero; `to` where there
/// are no more than `n`.
pub open spec fn component_start(s: Seq<char>, from: int, to: int, n: nat) -> int
    decreases to - from + 1,
{
    if from >= to {
        to
    } else {
        let end = piece_end(s, from, to);
        proof {
            lemma_piece_end(s, from, to);
        }
        if is_skipped(s.subrange(from, end)) {
            component_start(s, end + 1, to, n)
        } else if n == 0 {
            from
        } else {
            component_start(s, end + 1, to, (n - 1) as nat)
        }
    }
}

/// The path text that is left once the first `n` components are dropped.
pub open spec fn without_first(s: Seq<char>, n: nat) -> Seq<char> {
    let len = s.len() as int;
    if n == 0 {
        s.subrange(0, trimmed_end(s, head_len(s), len))
    } else {
        let start = component_start(s, head_len(s), len, (n - head_len(s)) as nat);
        s.subrange(start, trimmed_end(s, start, len))
    }
}

/// What is left of `path` below `base`, where the components of `base` are the first
/// components of `path`.
pub open spec fn stripped(path: Seq<char>, base: Seq<char>) -> Option<Seq<char>> {
    if components(base).is_prefix_of(components(path)) {
        Some(without_first(path, components(base).len()))
    } else {
        None
    }
}

/// `path` seen from `base`: an absolute path stands for itself.
pub open spec fn joined(base: Seq<char>, path: Seq<char>) -> Seq<char> {
    if is_absolute(path) {
        path
    } else if base.len() == 0 || base.last() == '/' {
        base + path
    } else {
        base.push('/') + path
    }
}

/// The path without its last component. The root and the empty path have none.
pub open spec fn parent_of(s: Seq<char>) -> Option<Seq<char>> {
    let from = head_len(s);
    let to = trimmed_end(s, from, s.len() as int);
    let start = piece_start(s, from, to);
    if to > from {
        Some(s.subrange(0, trimmed_end(s, from, if start > from { start - 1 } else { from })))
    } else if leads_with_dot(s) {
        Some(Seq::empty())
    } else {
        None
    }
}

/// The last component of the path, where it is a name.
pub open spec fn name_of(s: Seq<char>) -> Option<Seq<char>> {
    let c = components(s);
    if c.len() > 0 && c.last() != "/"@ && c.last() != "."@ && c.last() != ".."@ {
        Some(c.last())
    } else {
        None
    }
}

/// A separator splits the components around it.
proof fn lemma_body_split(s: Seq<char>, from: int, at: int, to: int)
    requires
        0 <= from <= at < to <= s.len(),
        s[at] == '/',
    ensures
        body(s, from, to) == body(s, from, at) + body(s, at + 1, to),
    decreases at - from,
{
    lemma_piece_end(s, from, to);
    lemma_piece_end(s, from, at);
    let end = piece_end(s, from, to);
    assert(piece_end(s, from, at) == end);
    if end < at {
        lemma_body_split(s, end + 1, at, to);
    }
    assert(body(s, from, to) =~= body(s, from, at) + body(s, at + 1, to));
}

/// The components of a part of a text are those of the range.
proof fn lemma_body_shift(s: Seq<char>, a: int, b: int, from: int, to: int)
    requires
        0 <= a <= b <= s.len(),
        0 <= from,
        to <= b - a,
    ensures
        from <= to ==> piece_end(s.subrange(a, b), from, to) + a == piece_end(s, from + a, to + a),
        body(s.subrange(a, b), from, to) == body(s, from + a, to + a),
    decreases to - from + 1,
{
    if from < to {
        let t = s.subrange(a, b);
        lemma_piece_end_shift(s, a, b, from, to);
        lemma_piece_end(t, from, to);
        let end = piece_end(t, from, to);
        lemma_body_shift(s, a, b, end + 1, to);
        assert(t.subrange(from, end) =~= s.subrange(from + a, end + a));
    }
}

proof fn lemma_piece_end_shift(s: Seq<char>, a: int, b: int, from: int, to: int)
    requires
        0 <= a <= b <= s.len(),
        0 <= from,
        to <= b - a,
    ensures
        from <= to ==> piece_end(s.subrange(a, b), from, to) + a == piece_end(s, from + a, to + a),
    decreases to - from,
{
    if from < to {
        lemma_piece_end_shift(s, a, b, from + 1, to);
    }
}

/// Dropping the trailing pieces that are no components keeps the components.
proof fn lemma_trimmed_end(s: Seq<char>, from: int, to: int)
    requires
        0 <= from <= to <= s.len(),
    ensures
        from <= trimmed_end(s, from, to) <= to,
        body(s, from, trimmed_end(s, from, to)) == body(s, from, to),
        ({
            let end = trimmed_end(s, from, to);
            &&& end == from || end == to || s[end] == '/'
            &&& from < end ==> !is_skipped(s.subrange(piece_start(s, from, end), end))
        }),
    decreases to - from,
{
    if from < to {
        let start = piece_start(s, from, to);
        lemma_piece_start(s, from, to);
        if is_skipped(s.subrange(start, to)) {
            lemma_last_piece(s, start, to);
            if start > from {
                lemma_trimmed_end(s, from, start - 1);
                lemma_body_split(s, from, start - 1, to);
                assert(body(s, from, to) =~= body(s, from, start - 1));
            }
        }
    }
}

/// A range without a separator is one piece.
proof fn lemma_last_piece(s: Seq<char>, from: int, to: int)
    requires
        0 <= from <= to <= s.len(),
        forall|i: int| from <= i < to ==> s[i] != '/',
    ensures
        piece_end(s, from, to) == to,
        is_skipped(s.subrange(from, to)) ==> body(s, from, to) == Seq::<Seq<char>>::empty(),
        !is_skipped(s.subrange(from, to)) ==> body(s, from, to) == seq![s.subrange(from, to)],
{
    lemma_piece_end(s, from, to);
    assert(body(s, to + 1, to) =~= Seq::empty());
    assert(seq![s.subrange(from, to)] + Seq::<Seq<char>>::empty() =~= seq![s.subrange(from, to)]);
}

/// The components from the start of the `n`-th one on are those after the first `n`.
proof fn lemma_component_start(s: Seq<char>, from: int, to: int, n: nat)
    requires
        0 <= from <= to + 1,
        0 <= to <= s.len(),
    ensures
        component_start(s, from, to, n) <= to,
        from <= to ==> from <= component_start(s, from, to, n),
        n <= body(s, from, to).len() ==> body(s, component_start(s, from, to, n), to) == body(
            s,
            from,
            to,
        ).skip(n as int),
        ({
            let start = component_start(s, from, to, n);
            start < to ==> !is_skipped(s.subrange(start, piece_end(s, start, to)))
        }),
    decreases to - from + 1,
{
    if from < to {
        lemma_piece_end(s, from, to);
        let end = piece_end(s, from, to);
        let whole = body(s, from, to);
        if is_skipped(s.subrange(from, end)) {
            lemma_component_start(s, end + 1, to, n);
        } else if n > 0 {
            lemma_component_start(s, end + 1, to, (n - 1) as nat);
            if n <= whole.len() {
                assert(body(s, end + 1, to).skip(n - 1) =~= whole.skip(n as int));
            }
        } else {
            assert(whole.skip(0) =~= whole);
        }
    } else {
        assert(body(s, from, to).skip(0) =~= Seq::empty());
    }
}

/// The last component of a range whose last piece is one.
proof fn lemma_last_component(s: Seq<char>, from: int, to: int)
    requires
        0 <= from < to <= s.len(),
        !is_skipped(s.subrange(piece_start(s, from, to), to)),
    ensures
        ({
            let start = piece_start(s, from, to);
            let cut = if start > from {
                start - 1
            } else {
                from
            };
            body(s, from, to) == body(s, from, cut).push(s.subrange(start, to))
        }),
{
    let start = piece_start(s, from, to);
    lemma_piece_start(s, from, to);
    lemma_last_piece(s, start, to);
    if start > from {
        lemma_body_split(s, from, start - 1, to);
        assert(body(s, from, to) =~= body(s, from, start - 1).push(s.subrange(start, to)));
    } else {
        assert(body(s, from, to) =~= body(s, from, from).push(s.subrange(start, to)));
    }
}

/// A text that is not empty has a component.
proof fn lemma_some_component(s: Seq<char>)
    requires
        s.len() > 0,
    ensures
        components(s).len() > 0,
{
    if head_len(s) == 0 {
        lemma_first_piece(s);
    }
}

/// The first piece of a path without a head is a component.
proof fn lemma_first_piece(s: Seq<char>)
    requires
        s.len() > 0,
        head_len(s) == 0,
    ensures
        ({
            let piece = s.subrange(0, piece_end(s, 0, s.len() as int));
            &&& piece.len() > 0
            &&& piece[0] == s[0]
            &&& !is_skipped(piece)
            &&& components(s).len() > 0
            &&& components(s)[0] == piece
        }),
{
    let len = s.len() as int;
    lemma_piece_end(s, 0, len);
    let end = piece_end(s, 0, len);
    let piece = s.subrange(0, end);
    assert(end > 0);
    assert(piece[0] == s[0]);
    assert(!is_skipped(piece)) by {
        if piece == seq!['.'] {
            assert(piece.len() == 1 && piece[0] == '.');
            assert(leads_with_dot(s));
        }
    }
    assert(head(s) =~= Seq::empty());
    assert(body(s, 0, len) == seq![piece] + body(s, end + 1, len));
    assert(components(s) =~= body(s, 0, len));
}

/// A prefix of the text that ends at a separator, or at the end, keeps its head.
proof fn lemma_head_of_prefix(s: Seq<char>, end: int)
    requires
        head_len(s) <= end <= s.len(),
        end == 0 || end == s.len() || s[end] == '/' || end == head_len(s),
    ensures
        head(s.subrange(0, end)) == head(s),
        head_len(s.subrange(0, end)) == head_len(s),
{
    let t = s.subrange(0, end);
    if end > 0 {
        assert(t[0] == s[0]);
        assert(t.take(1) =~= s.take(1));
    }
}

/// A part of the text that starts with a component and ends at a separator, or at the
/// end, has no head.
proof fn lemma_no_head(s: Seq<char>, start: int, end: int)
    requires
        0 <= start <= end <= s.len(),
        start < s.len() ==> !is_skipped(s.subrange(start, piece_end(s, start, s.len() as int))),
        end == start || end == s.len() || s[end] == '/',
    ensures
        head_len(s.subrange(start, end)) == 0,
        components(s.subrange(start, end)) == body(s.subrange(start, end), 0, end - start),
{
    let t = s.subrange(start, end);
    let len = s.len() as int;
    if start < end {
        lemma_piece_end(s, start, len);
        let piece = s.subrange(start, piece_end(s, start, len));
        assert(t[0] == s[start]);
        if s[start] == '.' && (t.len() == 1 || t[1] == '/') {
            if t.len() > 1 {
                assert(s[start + 1] == '/');
            }
            assert(start + 1 == len || s[start + 1] == '/');
            if start + 1 < len {
                assert(piece_end(s, start + 1, len) == start + 1);
            }
            assert(piece =~= seq!['.']);
        }
    }
    assert(components(t) =~= body(t, 0, end - start));
}

/// A text without a separator is one component, and an empty text has none.
pub proof fn law_text_without_separator_is_one_component(s: Seq<char>)
    requires
        !s.contains('/'),
    ensures
        components(s) == (if s.len() == 0 {
            Seq::empty()
        } else {
            seq![s]
        }),
{
    let len = s.len() as int;
    assert forall|i: int| 0 <= i < len implies s[i] != '/' by {
        assert(s.contains(s[i]));
    }
    if len == 0 {
        assert(components(s) =~= Seq::empty());
    } else if leads_with_dot(s) {
        assert(len == 1);
        assert(s.take(1) =~= s);
        assert(body(s, 1, 1) =~= Seq::empty());
        assert(components(s) =~= seq![s]);
    } else {
        lemma_last_piece(s, 0, len);
        assert(s.subrange(0, len) =~= s);
        assert(!is_skipped(s)) by {
            if s == seq!['.'] {
                assert(s[0] == '.' && s.len() == 1);
            }
        }
        assert(components(s) =~= seq![s]);
    }
}

/// A separator parts the components: those of what is before it come first, or the root where
/// nothing is before it, and then those of what is after it, save that neither a root nor a
/// leading `.` counts there.
pub proof fn law_separator_parts_components(a: Seq<char>, b: Seq<char>)
    ensures
        components(a + seq!['/'] + b) == (if a.len() == 0 {
            seq![seq!['/']]
        } else {
            components(a)
        }) + (if b.len() > 0 && (b[0] == '/' || b[0] == '.' && (b.len() == 1 || b[1] == '/')) {
            components(b).drop_first()
        } else {
            components(b)
        }),
{
    let whole = a + seq!['/'] + b;
    let len = whole.len() as int;
    let n = a.len() as int;
    let h = head_len(b);
    let m = b.len() as int;
    let below = body(b, h, m);
    assert(whole.subrange(n + 1, len) =~= b);
    lemma_body_shift(whole, n + 1, len, 0, m);
    assert(body(whole, n + 1, len) == below) by {
        if h == 1 {
            lemma_piece_end(b, 0, m);
            if is_absolute(b) {
                assert(piece_end(b, 0, m) == 0);
                assert(b.subrange(0, 0) =~= Seq::empty());
            } else {
                if m > 1 {
                    assert(piece_end(b, 1, m) == 1);
                }
                assert(piece_end(b, 0, m) == 1);
                assert(b.subrange(0, 1) =~= seq!['.']);
                if m > 1 {
                    lemma_body_split(b, 0, 1, m);
                    assert(body(b, 0, 1) =~= Seq::empty()) by {
                        assert(piece_end(b, 0, 1) == 1) by {
                            lemma_piece_end(b, 0, 1);
                        }
                        assert(body(b, 2, 1) =~= Seq::empty());
                    }
                    assert(b.subrange(1, 1) =~= Seq::empty());
                    assert(body(b, 0, m) =~= body(b, 2, m));
                    assert(body(b, 1, m) =~= body(b, 2, m));
                } else {
                    assert(body(b, 2, 1) =~= Seq::empty());
                }
            }
        }
    }
    assert(below =~= (if h == 1 {
        components(b).drop_first()
    } else {
        components(b)
    }));
    if n == 0 {
        assert(whole[0] == '/');
        assert(whole.take(1) =~= seq!['/']);
        assert(components(whole) =~= seq![seq!['/']] + below);
    } else {
        assert(whole[0] == a[0]);
        if n > 1 {
            assert(whole[1] == a[1]);
        } else {
            assert(whole[1] == '/');
        }
        assert(head_len(whole) == head_len(a));
        assert(whole.take(1) =~= a.take(1));
        assert(whole.subrange(0, n) =~= a);
        lemma_body_shift(whole, 0, n, head_len(a), n);
        assert(whole[n] == '/');
        lemma_body_split(whole, head_len(a), n, len);
        assert(components(whole) =~= components(a) + below);
    }
}

/// Stripping a base drops its components, and those only.
pub proof fn law_stripped_components(path: Seq<char>, base: Seq<char>)
    ensures
        stripped(path, base) matches Some(rest) ==> components(rest) == components(path).skip(
            components(base).len() as int,
        ),
        stripped(path, base) matches Some(rest) ==> head_len(rest) == (if base.len() > 0 {
            0
        } else {
            head_len(path)
        }),
{
    let n = components(base).len();
    let len = path.len() as int;
    let h = head_len(path);
    if components(base).is_prefix_of(components(path)) {
        let rest = without_first(path, n);
        if n == 0 {
            let end = trimmed_end(path, h, len);
            lemma_trimmed_end(path, h, len);
            lemma_head_of_prefix(path, end);
            lemma_body_shift(path, 0, end, h, end);
            assert(components(path).skip(0) =~= components(path));
            if base.len() > 0 {
                lemma_some_component(base);
            }
        } else {
            let m = (n - h) as nat;
            lemma_component_start(path, h, len, m);
            let start = component_start(path, h, len, m);
            let end = trimmed_end(path, start, len);
            lemma_trimmed_end(path, start, len);
            lemma_no_head(path, start, end);
            lemma_body_shift(path, start, end, 0, end - start);
            assert(body(path, h, len).skip(m as int) =~= components(path).skip(n as int));
        }
    }
}

/// The components of a relative path follow those of the base it is joined to; a
/// leading `.` is dropped, unless the base is empty.
pub proof fn law_joined_components(base: Seq<char>, path: Seq<char>)
    requires
        !is_absolute(path),
        base.len() > 0 || !leads_with_dot(path),
    ensures
        components(joined(base, path)) == components(base) + body(path, 0, path.len() as int),
{
    if base.len() == 0 {
        assert(joined(base, path) =~= path);
        assert(body(base, 0, 0) =~= Seq::empty());
        assert(components(path) =~= components(base) + body(path, 0, path.len() as int));
    } else {
        lemma_joined_components(base, path);
    }
}

proof fn lemma_joined_components(base: Seq<char>, path: Seq<char>)
    requires
        !is_absolute(path),
        base.len() > 0,
    ensures
        components(joined(base, path)) == components(base) + body(path, 0, path.len() as int),
{
    let whole = joined(base, path);
    let len = whole.len() as int;
    let h = head_len(base);
    let n = base.len() as int;
    let below = body(path, 0, path.len() as int);
    assert(whole[0] == base[0]);
    assert(whole.subrange(0, n) =~= base);
    if base.last() == '/' {
        assert(whole.subrange(n, len) =~= path);
        lemma_body_shift(whole, n, len, 0, path.len() as int);
        lemma_body_shift(whole, 0, n, h, n);
        if n > 1 {
            assert(whole[1] == base[1]);
        }
        assert(head_len(whole) == h);
        if h < n {
            assert(whole[n - 1] == '/');
            lemma_body_split(whole, h, n - 1, len);
            lemma_body_split(whole, h, n - 1, n);
            assert(body(whole, n, n) =~= Seq::empty());
            assert(body(whole, h, len) =~= body(base, h, n) + below);
        } else {
            assert(body(base, h, n) =~= Seq::empty());
            assert(body(whole, h, len) =~= body(base, h, n) + below);
        }
    } else {
        assert(whole.subrange(n + 1, len) =~= path);
        lemma_body_shift(whole, n + 1, len, 0, path.len() as int);
        lemma_body_shift(whole, 0, n, h, n);
        assert(whole[n] == '/');
        if n > 1 {
            assert(whole[1] == base[1]);
        }
        assert(head_len(whole) == h);
        lemma_body_split(whole, h, n, len);
    }
    assert(whole.take(1) =~= base.take(1));
    assert(components(whole) =~= components(base) + below);
}

/// What is left of a path below a base, joined to the base, is the path again.
pub proof fn law_joining_undoes_stripping(path: Seq<char>, base: Seq<char>)
    ensures
        stripped(path, base) matches Some(rest) ==> components(joined(base, rest)) == components(
            path,
        ),
{
    if let Some(rest) = stripped(path, base) {
        law_stripped_components(path, base);
        let n = components(base).len() as int;
        if base.len() == 0 {
            assert(body(base, 0, 0) =~= Seq::empty());
            assert(components(base) =~= Seq::empty());
            assert(joined(base, rest) =~= rest);
            assert(components(path).skip(0) =~= components(path));
        } else {
            lemma_some_component(base);
            law_joined_components(base, rest);
            assert(components(rest) =~= body(rest, 0, rest.len() as int));
            assert(components(base) =~= components(path).take(n));
            assert(components(path).take(n) + components(path).skip(n) =~= components(path));
        }
    }
}

/// A path is stripped of a base if and only if it begins with the components of the base, and
/// what is left is a part of its text.
pub proof fn law_stripped_where_the_base_leads(path: Seq<char>, base: Seq<char>)
    ensures
        stripped(path, base) is Some <==> components(base).is_prefix_of(components(path)),
        stripped(path, base) matches Some(rest) ==> exists|i: int, j: int|
            0 <= i <= j <= path.len() && rest == #[trigger] path.subrange(i, j),
{
    if let Some(rest) = stripped(path, base) {
        let n = components(base).len();
        let len = path.len() as int;
        let h = head_len(path);
        if n == 0 {
            lemma_trimmed_end(path, h, len);
            assert(rest == path.subrange(0, trimmed_end(path, h, len)));
        } else {
            let m = (n - h) as nat;
            lemma_component_start(path, h, len, m);
            let start = component_start(path, h, len, m);
            lemma_trimmed_end(path, start, len);
            assert(rest == path.subrange(start, trimmed_end(path, start, len)));
        }
    }
}

/// A component starts where a piece that is one does, after as many components as there are
/// before it.
proof fn lemma_component_start_at(s: Seq<char>, from: int, at: int, to: int, m: nat)
    requires
        0 <= from <= at < to <= s.len(),
        at > from ==> s[at - 1] == '/',
        !is_skipped(s.subrange(at, piece_end(s, at, to))),
        m == body(s, from, at - 1).len(),
    ensures
        component_start(s, from, to, m) == at,
    decreases at - from,
{
    if at == from {
        assert(body(s, from, at - 1) =~= Seq::empty());
    } else {
        lemma_piece_end(s, from, to);
        lemma_piece_end(s, from, at - 1);
        let end = piece_end(s, from, to);
        assert(end <= at - 1);
        assert(piece_end(s, from, at - 1) == end);
        if from == at - 1 {
            assert(body(s, from, at - 1) =~= Seq::empty());
            assert(s.subrange(from, end) =~= Seq::empty());
            assert(body(s, at, at - 1) =~= Seq::empty());
        }
        let rest = body(s, end + 1, at - 1);
        lemma_component_start_at(s, end + 1, at, to, rest.len());
    }
}

/// What is joined to a base is what is left below it, as it is written: a relative path that has
/// no leading `.` and ends with a component.
pub proof fn law_stripping_undoes_joining(base: Seq<char>, rest: Seq<char>)
    requires
        base.len() > 0,
        rest.len() > 0,
        rest[0] != '/',
        !(rest[0] == '.' && (rest.len() == 1 || rest[1] == '/')),
        rest.last() != '/',
        rest.len() > 1 ==> !(rest.last() == '.' && rest[rest.len() - 2] == '/'),
    ensures
        stripped(joined(base, rest), base) == Some(rest),
{
    let whole = joined(base, rest);
    let len = whole.len() as int;
    let b = base.len() as int;
    let at = len - rest.len();
    let h = head_len(base);
    lemma_some_component(base);
    law_joined_components(base, rest);
    let n = components(base).len();
    assert(components(whole).subrange(0, n as int) =~= components(base));
    assert(whole.subrange(at, len) =~= rest);
    assert(whole.subrange(0, b) =~= base);
    assert(whole[0] == base[0]);
    if b > 1 {
        assert(whole[1] == base[1]);
    } else if at > 1 {
        assert(whole[1] == '/');
    }
    assert(head_len(whole) == h);
    assert(whole[at - 1] == '/');
    assert(whole[at] == rest[0]);
    // The first piece of the rest is a component.
    lemma_piece_end(whole, at, len);
    let piece = whole.subrange(at, piece_end(whole, at, len));
    assert(!is_skipped(piece)) by {
        if piece == seq!['.'] {
            assert(piece[0] == '.' && piece.len() == 1);
            if rest.len() > 1 {
                assert(whole[at + 1] == rest[1]);
            }
        }
    }
    let m = (n - h) as nat;
    lemma_base_before(whole, b, at, h);
    assert(body(whole, h, at - 1).len() == m);
    lemma_component_start_at(whole, h, at, len, m);
    assert(whole[len - 1] == rest.last());
    if rest.len() > 1 {
        assert(whole[len - 2] == rest[rest.len() - 2]);
    }
    lemma_nothing_to_trim(whole, at, len);
}

/// The components before the separator after a base are those of the base.
proof fn lemma_base_before(s: Seq<char>, b: int, at: int, h: int)
    requires
        0 < b <= at <= s.len(),
        h == head_len(s.subrange(0, b)),
        s[at - 1] == '/',
        at == b || at == b + 1,
        h <= b,
    ensures
        body(s, h, at - 1) == body(s.subrange(0, b), h, b),
{
    lemma_body_shift(s, 0, b, h, b);
    if at == b {
        if h < b {
            lemma_body_split(s, h, b - 1, b);
            assert(body(s, b, b) =~= Seq::empty());
            assert(body(s, h, b) =~= body(s, h, b - 1));
        } else {
            assert(body(s, h, b) =~= Seq::empty());
            assert(body(s, h, at - 1) =~= Seq::empty());
        }
    }
}

/// Nothing is dropped from the end of a range that ends with a component.
proof fn lemma_nothing_to_trim(s: Seq<char>, from: int, to: int)
    requires
        0 <= from < to <= s.len(),
        s[to - 1] != '/',
        s[to - 1] == '.' ==> from < to - 1 && s[to - 2] != '/',
    ensures
        trimmed_end(s, from, to) == to,
{
    let start = piece_start(s, from, to);
    lemma_piece_start(s, from, to);
    let piece = s.subrange(start, to);
    assert(start < to);
    assert(piece.len() == to - start);
    if piece == seq!['.'] {
        assert(piece[0] == s[start]);
        assert(piece.len() == 1);
    }
    assert(!is_skipped(piece));
}

/// An absolute path stands for itself; any other is put behind the base, with a separator
/// between them unless the base is empty or ends with one.
pub proof fn law_joined_text(base: Seq<char>, path: Seq<char>)
    ensures
        path.len() > 0 && path[0] == '/' ==> joined(base, path) == path,
        !(path.len() > 0 && path[0] == '/') ==> joined(base, path) == base + (if base.len() == 0
            || base.last() == '/' {
            Seq::empty()
        } else {
            seq!['/']
        }) + path,
{
    if !(path.len() > 0 && path[0] == '/') {
        assert(joined(base, path) =~= base + (if base.len() == 0 || base.last() == '/' {
            Seq::empty()
        } else {
            seq!['/']
        }) + path);
    }
}

/// Whether the text is a name that can stand as one component of a path.
pub open spec fn is_name(name: Seq<char>) -> bool {
    name.len() > 0 && !name.contains('/') && name != "."@ && name != ".."@
}

/// A name that is joined to a path becomes its last component and its file name.
pub proof fn law_joined_name(base: Seq<char>, name: Seq<char>)
    requires
        is_name(name),
    ensures
        components(joined(base, name)) == components(base).push(name),
        name_of(joined(base, name)) == Some(name),
{
    reveal_strlit("/");
    reveal_strlit(".");
    assert("."@ =~= seq!['.']);
    let len = name.len() as int;
    assert forall|i: int| 0 <= i < len implies name[i] != '/' by {
        assert(name.contains(name[i]));
    }
    lemma_last_piece(name, 0, len);
    assert(name.subrange(0, len) =~= name);
    assert(body(name, 0, len) == seq![name]);
    if base.len() == 0 {
        assert(joined(base, name) =~= name);
        assert(!leads_with_dot(name)) by {
            if len == 1 && name[0] == '.' {
                assert(name =~= seq!['.']);
            }
        }
        assert(head(base) + body(base, 0, 0) =~= Seq::empty());
        assert(components(name) =~= components(base).push(name));
    } else {
        law_joined_components(base, name);
        assert(components(joined(base, name)) =~= components(base).push(name));
    }
    if name == "/"@ {
        assert(name[0] == '/');
    }
}

/// The parent of a path has all its components but the last. A path without
/// components and the root have no parent.
pub proof fn law_parent_components(s: Seq<char>)
    ensures
        parent_of(s) is None <==> components(s).len() == 0 || components(s) == seq!["/"@],
        parent_of(s) matches Some(parent) ==> components(parent) == components(s).drop_last(),
{
    reveal_strlit("/");
    let from = head_len(s);
    let len = s.len() as int;
    let to = trimmed_end(s, from, len);
    lemma_trimmed_end(s, from, len);
    if to > from {
        lemma_piece_start(s, from, to);
        let start = piece_start(s, from, to);
        let cut = if start > from {
            start - 1
        } else {
            from
        };
        lemma_last_component(s, from, to);
        let last = s.subrange(start, to);
        lemma_trimmed_end(s, from, cut);
        let end = trimmed_end(s, from, cut);
        lemma_head_of_prefix(s, end);
        lemma_body_shift(s, 0, end, from, end);
        assert(components(s.subrange(0, end)) =~= components(s).drop_last());
        assert(components(s).last() == last);
        if components(s) == seq!["/"@] {
            assert(last == "/"@);
            assert(last[0] == '/');
        }
    } else {
        assert(body(s, from, to) =~= Seq::empty());
        assert(components(s) =~= head(s));
        if leads_with_dot(s) {
            assert(components(Seq::<char>::empty()) =~= Seq::empty());
            assert(head(s).drop_last() =~= Seq::empty());
            assert(s.take(1)[0] == '.');
            assert(components(s)[0] == s.take(1));
            if components(s) == seq!["/"@] {
                assert(s.take(1) == "/"@);
            }
        } else if is_absolute(s) {
            assert(s.take(1) =~= "/"@);
        }
    }
}

/// The parent of a name in a directory is the directory as it is written, unless that ends with
/// a separator, or with a separator and a `.`, and is more than the root.
pub proof fn law_parent_gives_the_directory_back(base: Seq<char>, name: Seq<char>)
    requires
        is_name(name),
        base.len() > 1 ==> base.last() != '/' && !(base.last() == '.' && base[base.len() - 2]
            == '/'),
    ensures
        parent_of(joined(base, name)) == Some(base),
{
    reveal_strlit(".");
    assert("."@ =~= seq!['.']);
    let whole = joined(base, name);
    let len = whole.len() as int;
    let n = base.len() as int;
    let at = len - name.len();
    assert(whole.subrange(at, len) =~= name);
    assert(whole.subrange(0, n) =~= base);
    assert forall|i: int| at <= i < len implies whole[i] != '/' by {
        assert(whole[i] == name[i - at]);
        assert(name.contains(name[i - at]));
    }
    assert(at > 0 ==> whole[at - 1] == '/');
    let from = head_len(whole);
    assert(from <= at) by {
        if at == 0 {
            assert(whole =~= name);
            assert(whole[0] != '/');
            if len == 1 && name[0] == '.' {
                assert(name =~= seq!['.']);
            }
            if len > 1 {
                assert(whole[1] != '/');
            }
        }
    }
    lemma_last_start(whole, from, at, len);
    assert(!is_skipped(name));
    assert(trimmed_end(whole, from, len) == len);
    if at > from {
        let cut = at - 1;
        if cut > from {
            // The base ends in a component.
            lemma_piece_start(whole, from, cut);
            let start = piece_start(whole, from, cut);
            assert(cut == n);
            assert(!is_skipped(whole.subrange(start, cut))) by {
                assert(whole[cut - 1] == base[n - 1]);
                if start == cut {
                    assert(whole[start - 1] == '/');
                }
                if whole.subrange(start, cut) == seq!['.'] {
                    assert(start == cut - 1);
                    assert(whole.subrange(start, cut)[0] == '.');
                    assert(whole[start] == base[n - 1]);
                    if start > from {
                        assert(whole[start - 1] == base[n - 2]);
                    } else {
                        if from == 1 {
                            assert(whole[0] == base[0]);
                            if whole[0] == '.' {
                                assert(whole[1] == '/');
                            }
                        } else {
                            assert(whole[0] == '.' && whole[1] == '/');
                        }
                    }
                }
            }
            assert(trimmed_end(whole, from, cut) == cut);
        } else {
            assert(trimmed_end(whole, from, cut) == cut);
            assert(cut == n || n == 1 && base[0] == '/');
        }
    }
}

/// The last piece starts where nothing after it is a separator and what is before it is.
proof fn lemma_last_start(s: Seq<char>, from: int, at: int, to: int)
    requires
        0 <= from <= at <= to <= s.len(),
        forall|i: int| at <= i < to ==> s[i] != '/',
        at > from ==> s[at - 1] == '/',
    ensures
        piece_start(s, from, to) == at,
    decreases to - at,
{
    if at < to {
        lemma_last_start(s, from, at, to - 1);
    }
}

/// The file name is the last component, unless that is the root, `.` or `..`.
pub proof fn law_name_is_the_last_component(s: Seq<char>)
    ensures
        name_of(s) == (if components(s).len() == 0 || components(s).last() == seq!['/']
            || components(s).last() == seq!['.'] || components(s).last() == seq!['.', '.'] {
            None
        } else {
            Some(components(s).last())
        }),
{
    reveal_strlit("/");
    reveal_strlit(".");
    reveal_strlit("..");
    assert("/"@ =~= seq!['/']);
    assert("."@ =~= seq!['.']);
    assert(".."@ =~= seq!['.', '.']);
}

/// The parent of a name in a directory is that directory.
pub proof fn law_parent_undoes_joining_a_name(base: Seq<char>, name: Seq<char>)
    requires
        is_name(name),
    ensures
        parent_of(joined(base, name)) matches Some(parent) && components(parent) == components(
            base,
        ),
{
    reveal_strlit("/");
    let whole = joined(base, name);
    law_joined_name(base, name);
    law_parent_components(whole);
    assert(components(whole).last() == name);
    assert(components(whole).drop_last() =~= components(base));
    if components(whole) == seq!["/"@] {
        assert(name == "/"@);
        assert(name[0] == '/');
        assert(name.contains('/'));
    }
}

/// Index of the first separator in `from..to`, or `to`.
fn find_piece_end(chars: &Vec<char>, from: usize, to: usize) -> (r: usize)
    requires
        from <= to <= chars@.len(),
    ensures
        r == piece_end(chars@, from as int, to as int),
        from <= r <= to,
{
    let mut i: usize = from;
    while i < to && chars[i] != '/'
        invariant
            from <= i <= to <= chars@.len(),
            piece_end(chars@, from as int, to as int) == piece_end(chars@, i as int, to as int),
        decreases to - i,
    {
        i += 1;
    }
    i
}

/// Index after the last separator in `from..to`, or `from`.
fn find_piece_start(chars: &Vec<char>, from: usize, to: usize) -> (r: usize)
    requires
        from <= to <= chars@.len(),
    ensures
        r == piece_start(chars@, from as int, to as int),
        from <= r <= to,
{
    let mut i: usize = to;
    while i > from && chars[i - 1] != '/'
        invariant
            from <= i <= to <= chars@.len(),
            piece_start(chars@, from as int, to as int) == piece_start(
                chars@,
                from as int,
                i as int,
            ),
        decreases i - from,
    {
        i -= 1;
    }
    i
}

/// Whether the piece `from..to` is no component.
fn skips(chars: &Vec<char>, from: usize, to: usize) -> (r: bool)
    requires
        from <= to <= chars@.len(),
    ensures
        r == is_skipped(chars@.subrange(from as int, to as int)),
{
    let ghost piece = chars@.subrange(from as int, to as int);
    if from == to {
        true
    } else if to - from == 1 && chars[from] == '.' {
        assert(piece =~= seq!['.']);
        true
    } else {
        assert(piece == seq!['.'] ==> piece.len() == 1 && piece[0] == '.');
        false
    }
}

/// The end of the path text in `from..to` once trailing pieces that are no
/// components are dropped.
fn find_trimmed_end(chars: &Vec<char>, from: usize, to: usize) -> (r: usize)
    requires
        from <= to <= chars@.len(),
    ensures
        r == trimmed_end(chars@, from as int, to as int),
        from <= r <= to,
{
    let mut end: usize = to;
    while end > from
        invariant
            from <= end <= to <= chars@.len(),
            trimmed_end(chars@, from as int, to as int) == trimmed_end(
                chars@,
                from as int,
                end as int,
            ),
        decreases end - from,
    {
        let start: usize = find_piece_start(chars, from, end);
        if !skips(chars, start, end) {
            return end;
        }
        end = if start > from {
            start - 1
        } else {
            from
        };
    }
    end
}

/// The range of the first component in `from..to`; an empty range at `to` where there
/// is none.
fn next_component(chars: &Vec<char>, from: usize, to: usize) -> (r: (usize, usize))
    requires
        from <= to <= chars@.len(),
    ensures
        from <= r.0 <= r.1 <= to,
        r.0 == component_start(chars@, from as int, to as int, 0),
        r.0 < to ==> r.1 == piece_end(chars@, r.0 as int, to as int),
        body(chars@, from as int, to as int) == body(chars@, r.0 as int, to as int),
        r.0 < to ==> !is_skipped(chars@.subrange(r.0 as int, r.1 as int)),
{
    let mut i: usize = from;
    while i < to
        invariant
            from <= i <= to <= chars@.len(),
            component_start(chars@, from as int, to as int, 0) == component_start(
                chars@,
                i as int,
                to as int,
                0,
            ),
            body(chars@, from as int, to as int) == body(chars@, i as int, to as int),
        decreases to - i,
    {
        let end: usize = find_piece_end(chars, i, to);
        if !skips(chars, i, end) {
            return (i, end);
        }
        assert(body(chars@, to + 1, to as int) == body(chars@, to as int, to as int));
        assert(component_start(chars@, to + 1, to as int, 0) == component_start(
            chars@,
            to as int,
            to as int,
            0,
        ));
        i = if end < to {
            end + 1
        } else {
            to
        };
    }
    (to, to)
}

/// Number of characters before the first ordinary component.
fn find_head(chars: &Vec<char>) -> (r: usize)
    ensures
        r == head_len(chars@),
        r <= chars@.len(),
{
    if chars.len() > 0 && (chars[0] == '/' || (chars[0] == '.' && (chars.len() == 1 || chars[1]
        == '/'))) {
        1
    } else {
        0
    }
}

/// Whether the ranges `a..b` of `x` and `c..d` of `y` hold the same text.
fn same_range(x: &Vec<char>, a: usize, b: usize, y: &Vec<char>, c: usize, d: usize) -> (r: bool)
    requires
        a <= b <= x@.len(),
        c <= d <= y@.len(),
    ensures
        r == (x@.subrange(a as int, b as int) == y@.subrange(c as int, d as int)),
{
    let ghost s = x@.subrange(a as int, b as int);
    let ghost t = y@.subrange(c as int, d as int);
    if b - a != d - c {
        assert(s.len() != t.len());
        return false;
    }
    let mut i: usize = 0;
    while i < b - a
        invariant
            a <= b <= x@.len(),
            c <= d <= y@.len(),
            b - a == d - c,
            i <= b - a,
            s == x@.subrange(a as int, b as int),
            t == y@.subrange(c as int, d as int),
            forall|j: int| 0 <= j < i ==> s[j] == t[j],
        decreases b - a - i,
    {
        assert(s[i as int] == x@[a + i] && t[i as int] == y@[c + i]);
        if x[a + i] != y[c + i] {
            return false;
        }
        i += 1;
    }
    assert(s =~= t);
    true
}

/// What is left of `path` below `base`, if `base` is a prefix of `path` by whole
/// components.
pub fn strip_prefix(path: &str, base: &str) -> (r: Option<String>)
    ensures
        text::optional(r) == stripped(path@, base@),
{
    let p: Vec<char> = to_chars(path);
    let b: Vec<char> = to_chars(base);
    let p_head: usize = find_head(&p);
    let b_head: usize = find_head(&b);
    let p_len: usize = p.len();
    let b_len: usize = b.len();
    let ghost pc = components(p@);
    let ghost bc = components(b@);
    let ghost p_body = body(p@, p_head as int, p_len as int);
    let ghost b_body = body(b@, b_head as int, b_len as int);
    if b_len == 0 {
        assert(bc =~= Seq::empty());
        let end: usize = find_trimmed_end(&p, p_head, p_len);
        return Some(from_chars(&p, 0, end));
    }
    proof {
        lemma_some_component(b@);
    }
    if p_head != b_head || (b_head == 1 && p[0] != b[0]) {
        proof {
            assert(!bc.is_prefix_of(pc)) by {
                lemma_first_component(p@);
                lemma_first_component(b@);
                if bc.is_prefix_of(pc) {
                    assert(bc[0] == pc.subrange(0, bc.len() as int)[0]);
                    assert(bc[0] == pc[0]);
                    assert(bc[0][0] == pc[0][0]);
                }
            }
        }
        return None;
    }
    let ghost h = head(p@);
    assert(h == head(b@)) by {
        if p_head == 1 {
            assert(p@.take(1) =~= b@.take(1));
        }
    }
    let mut i: usize = p_head;
    let mut j: usize = b_head;
    let ghost mut n: nat = 0;
    assert(p_body.skip(0) =~= p_body && b_body.skip(0) =~= b_body);
    loop
        invariant
            p@ == path@,
            b@ == base@,
            b_len > 0,
            p_head == head_len(p@),
            b_head == head_len(b@),
            p_head == b_head,
            p_head <= i <= p_len == p@.len(),
            b_head <= j <= b_len == b@.len(),
            pc == components(p@),
            bc == components(b@),
            bc.len() > 0,
            h == head(p@),
            h == head(b@),
            h.len() == p_head,
            pc == h + p_body,
            bc == h + b_body,
            p_body == body(p@, p_head as int, p_len as int),
            b_body == body(b@, b_head as int, b_len as int),
            n <= p_body.len(),
            n <= b_body.len(),
            p_body.take(n as int) == b_body.take(n as int),
            body(p@, i as int, p_len as int) == p_body.skip(n as int),
            body(b@, j as int, b_len as int) == b_body.skip(n as int),
            component_start(p@, p_head as int, p_len as int, n) == component_start(
                p@,
                i as int,
                p_len as int,
                0,
            ),
        decreases b_len - j,
    {
        let (pi, pe): (usize, usize) = next_component(&p, i, p_len);
        let (bi, be): (usize, usize) = next_component(&b, j, b_len);
        if bi == b_len {
            proof {
                assert(body(b@, bi as int, b_len as int).len() == 0);
                assert(b_body.skip(n as int).len() == 0);
                assert(b_body.take(n as int) =~= b_body);
                assert(pc.subrange(0, bc.len() as int) =~= bc);
                assert(bc.len() == n + p_head);
            }
            let end: usize = find_trimmed_end(&p, pi, p_len);
            return Some(from_chars(&p, pi, end));
        }
        proof {
            lemma_body_step(b@, bi as int, b_len as int, b_body, n as int);
            if pi < p_len {
                lemma_body_step(p@, pi as int, p_len as int, p_body, n as int);
            }
        }
        if pi == p_len || !same_range(&p, pi, pe, &b, bi, be) {
            proof {
                assert(!bc.is_prefix_of(pc)) by {
                    if bc.is_prefix_of(pc) {
                        let k = h.len() + n;
                        assert(bc[k as int] == pc.subrange(0, bc.len() as int)[k as int]);
                        assert(bc[k as int] == b_body[n as int]);
                        assert(pc[k as int] == p_body[n as int]);
                        if pi == p_len {
                            assert(p_body.skip(n as int).len() == 0);
                        }
                    }
                }
            }
            return None;
        }
        proof {
            lemma_component_step(p@, p_head as int, p_len as int, n);
            n = n + 1;
        }
        i = if pe < p_len {
            pe + 1
        } else {
            p_len
        };
        j = if be < b_len {
            be + 1
        } else {
            b_len
        };
    }
}

/// Where what is left of the components from index `n` on starts with a piece, that piece
/// is the component of index `n`, and what is left after it are the others.
proof fn lemma_body_step(s: Seq<char>, start: int, to: int, whole: Seq<Seq<char>>, n: int)
    requires
        0 <= start < to <= s.len(),
        !is_skipped(s.subrange(start, piece_end(s, start, to))),
        0 <= n <= whole.len(),
        body(s, start, to) == whole.skip(n),
    ensures
        ({
            let end = piece_end(s, start, to);
            &&& n < whole.len()
            &&& whole[n] == s.subrange(start, end)
            &&& whole.take(n + 1) == whole.take(n).push(whole[n])
            &&& body(s, if end < to {
                end + 1
            } else {
                to
            }, to) == whole.skip(n + 1)
        }),
{
    lemma_piece_end(s, start, to);
    let end = piece_end(s, start, to);
    let rest = body(s, end + 1, to);
    let left = whole.skip(n);
    assert(left == seq![s.subrange(start, end)] + rest);
    assert(left.len() == 1 + rest.len());
    assert(left.len() == whole.len() - n);
    assert(left[0] == s.subrange(start, end));
    assert(left[0] == whole[n]);
    assert(left.skip(1) =~= rest);
    assert(left.skip(1) =~= whole.skip(n + 1));
    assert(whole.take(n + 1) =~= whole.take(n).push(whole[n]));
    if end == to {
        assert(rest =~= body(s, to, to));
    }
}

/// The component after the `n`-th one is the first one after its piece.
proof fn lemma_component_step(s: Seq<char>, from: int, to: int, n: nat)
    requires
        0 <= from <= to + 1,
        0 <= to <= s.len(),
        component_start(s, from, to, n) < to,
    ensures
        component_start(s, from, to, n + 1) == component_start(
            s,
            piece_end(s, component_start(s, from, to, n), to) + 1,
            to,
            0,
        ),
    decreases to - from + 1,
{
    if from < to {
        lemma_piece_end(s, from, to);
        let end = piece_end(s, from, to);
        if is_skipped(s.subrange(from, end)) {
            lemma_component_step(s, end + 1, to, n);
        } else if n > 0 {
            lemma_component_step(s, end + 1, to, (n - 1) as nat);
        }
    }
}

/// The first component of a path is the root, `.` or an ordinary component, as its
/// head says.
proof fn lemma_first_component(s: Seq<char>)
    ensures
        head_len(s) == 1 ==> components(s).len() > 0 && components(s)[0] == seq![s[0]],
        head_len(s) == 0 && components(s).len() > 0 ==> {
            let c = components(s)[0];
            c.len() > 0 && c != seq!['.'] && c != seq!['/']
        },
{
    if head_len(s) == 1 {
        assert(s.take(1) =~= seq![s[0]]);
    } else if s.len() > 0 {
        lemma_first_piece(s);
        let c = components(s)[0];
        if c == seq!['/'] {
            assert(c[0] == '/');
        }
    } else {
        assert(components(s).len() == 0);
    }
}

/// `path` seen from `base`: an absolute path stands for itself.
pub fn join(base: &str, path: &str) -> (r: String)
    ensures
        r@ == joined(base@, path@),
{
    let b: Vec<char> = to_chars(base);
    let p: Vec<char> = to_chars(path);
    if p.len() > 0 && p[0] == '/' {
        path.to_string()
    } else if b.len() == 0 || b[b.len() - 1] == '/' {
        base.to_string().concat(path)
    } else {
        let mut r: String = base.to_string();
        r.push('/');
        r.concat(path)
    }
}

/// The path without its last component, if there is one.
pub fn parent(path: &str) -> (r: Option<String>)
    ensures
        text::optional(r) == parent_of(path@),
{
    let p: Vec<char> = to_chars(path);
    let from: usize = find_head(&p);
    let to: usize = find_trimmed_end(&p, from, p.len());
    if to > from {
        let start: usize = find_piece_start(&p, from, to);
        let cut: usize = if start > from {
            start - 1
        } else {
            from
        };
        let end: usize = find_trimmed_end(&p, from, cut);
        Some(from_chars(&p, 0, end))
    } else if from == 1 && p[0] == '.' {
        Some(String::new())
    } else {
        None
    }
}

/// The last component of the path, if it is a name.
pub fn file_name(path: &str) -> (r: Option<String>)
    ensures
        text::optional(r) == name_of(path@),
{
    let p: Vec<char> = to_chars(path);
    let from: usize = find_head(&p);
    let len: usize = p.len();
    let to: usize = find_trimmed_end(&p, from, len);
    let ghost c = components(path@);
    proof {
        reveal_strlit("/");
        reveal_strlit(".");
        reveal_strlit("..");
        lemma_trimmed_end(p@, from as int, len as int);
    }
    if to == from {
        proof {
            assert(body(p@, from as int, to as int) =~= Seq::empty());
            assert(c =~= head(p@));
            if from == 1 {
                assert(c.last() == p@.take(1));
                assert(p@.take(1) =~= "/"@ || p@.take(1) =~= "."@);
            }
        }
        return None;
    }
    let start: usize = find_piece_start(&p, from, to);
    let ghost last = p@.subrange(start as int, to as int);
    proof {
        lemma_last_component(p@, from as int, to as int);
        lemma_piece_start(p@, from as int, to as int);
        assert(c.last() == last);
        assert(last.len() > 0 && last[0] != '/');
        assert(last != "/"@);
        assert("."@ =~= seq!['.']);
        assert(last != "."@);
    }
    if to - start == 2 && p[start] == '.' && p[start + 1] == '.' {
        assert(last =~= ".."@);
        return None;
    }
    assert(last != ".."@) by {
        if last == ".."@ {
            assert(last[0] == '.' && last[1] == '.');
        }
    }
    Some(from_chars(&p, start, to))
}

} // verus!
