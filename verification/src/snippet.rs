//! Finding the code of an init specifier in a generated file.
//!
//! The generator leaves no marker that points back at the specifier. A snippet is
//! found by its text: line by line, whitespace around a line and blank lines aside.
//! The search starts in the section of the file that belongs to the phase and
//! falls back to the whole file.

use crate::phases::{PhaseInfo, Placement};
use crate::text::{self, to_chars, TextLines};
use vstd::prelude::*;

verus! {

/// Index of the first line at or after `from` that, without its indentation,
/// begins with `prefix`; the number of lines where there is none.
pub open spec fn first_with_prefix(
    lines: Seq<Seq<char>>,
    prefix: Seq<char>,
    from: int,
) -> int
    decreases lines.len() - from,
{
    if from >= lines.len() {
        lines.len() as int
    } else if prefix.is_prefix_of(text::trim_start(lines[from])) {
        from
    } else {
        first_with_prefix(lines, prefix, from + 1)
    }
}

/// Index of the first line in `from..to` that, without surrounding whitespace, is
/// `text`; `to` where there is none.
pub open spec fn first_with_text(
    lines: Seq<Seq<char>>,
    text: Seq<char>,
    from: int,
    to: int,
) -> int
    decreases to - from,
{
    if from >= to {
        to
    } else if text::trim(lines[from]) == text {
        from
    } else {
        first_with_text(lines, text, from + 1, to)
    }
}

/// Opening braces less closing braces in the lines `start..end`.
pub open spec fn brace_depth(lines: Seq<Seq<char>>, start: int, end: int) -> int
    decreases end - start,
{
    if end <= start {
        0
    } else {
        brace_depth(lines, start, end - 1) + text::net_braces(lines[end - 1])
    }
}

/// Whether the lines `start..end` hold an opening brace.
pub open spec fn brace_opened(lines: Seq<Seq<char>>, start: int, end: int) -> bool {
    exists|i: int| start <= i < end && (#[trigger] lines[i]).contains('{')
}

/// Whether the lines `start..end` open a brace and close as many as they open.
pub open spec fn block_closed(lines: Seq<Seq<char>>, start: int, end: int) -> bool {
    brace_opened(lines, start, end) && brace_depth(lines, start, end) <= 0
}

/// The least end after `from` at which the lines from `start` on are a closed
/// block; the number of lines where there is none.
pub open spec fn first_close(lines: Seq<Seq<char>>, start: int, from: int) -> int
    decreases lines.len() - from,
{
    if from >= lines.len() {
        lines.len() as int
    } else if block_closed(lines, start, from + 1) {
        from + 1
    } else {
        first_close(lines, start, from + 1)
    }
}

/// Index one past the line that closes the brace block opened on line `start`.
pub open spec fn end_of_block(lines: Seq<Seq<char>>, start: int) -> int {
    first_close(lines, start, start)
}

/// The line that opens the helper function of a phase.
pub open spec fn function_header(name: Seq<char>) -> Seq<char> {
    "void "@ + name + "("@
}

/// The line that opens a namespace.
pub open spec fn namespace_header(name: Seq<char>) -> Seq<char> {
    "namespace "@ + name + " {"@
}

/// The lines `start..end` of a file that belong to the phase and, where the phase has a
/// section for each instance, to the instance.
pub open spec fn section_of(
    lines: Seq<Seq<char>>,
    phase: PhaseInfo,
    instance_cpp_name: Seq<char>,
) -> Option<(int, int)> {
    let len = lines.len() as int;
    match phase.placement {
        Placement::Function(_) => {
            let start = first_with_prefix(lines, function_header(phase.name@), 0);
            if start < len {
                Some((start, end_of_block(lines, start)))
            } else {
                None
            }
        },
        Placement::Namespace(ns) => {
            let outer = first_with_text(lines, namespace_header(ns@), 0, len);
            let outer_end = end_of_block(lines, outer);
            let inner = first_with_text(
                lines,
                namespace_header(instance_cpp_name),
                outer,
                outer_end,
            );
            if outer < len && inner < outer_end {
                Some((inner, end_of_block(lines, inner)))
            } else {
                None
            }
        },
        Placement::Instances => Some(
            (0, first_with_text(lines, "namespace ConfigObjects {"@, 0, len)),
        ),
    }
}

/// The lines of a snippet that are looked for: those that are not blank, without
/// surrounding whitespace.
pub open spec fn snippet_lines(code: Seq<char>) -> Seq<Seq<char>> {
    text::content_lines(code)
}

/// Whether `needle` stands in `hay` from index `k` on.
pub open spec fn occurs_at(hay: Seq<Seq<char>>, k: int, needle: Seq<Seq<char>>) -> bool {
    &&& 0 <= k
    &&& k + needle.len() <= hay.len()
    &&& hay.subrange(k, k + needle.len()) == needle
}

/// The least index at or after `k` at which `needle` stands in `hay`.
pub open spec fn first_occurrence(
    hay: Seq<Seq<char>>,
    k: int,
    needle: Seq<Seq<char>>,
) -> Option<int>
    decreases hay.len() - k,
{
    if k + needle.len() > hay.len() || k >= hay.len() {
        None
    } else if occurs_at(hay, k, needle) {
        Some(k)
    } else {
        first_occurrence(hay, k + 1, needle)
    }
}

/// The first line in `from..to` at which the snippet stands. Lines are compared
/// without surrounding whitespace, and blank lines on either side do not count. A
/// snippet of blank lines only stands nowhere.
pub open spec fn found_in(
    lines: Seq<Seq<char>>,
    from: int,
    to: int,
    code: Seq<char>,
) -> Option<int> {
    let needle = snippet_lines(code);
    let hay = text::nonblank(lines, from, to);
    if needle.len() == 0 {
        None
    } else {
        match first_occurrence(text::trimmed_at(lines, hay), 0, needle) {
            Some(k) => Some(hay[k]),
            None => None,
        }
    }
}

/// The line of the snippet in the generated text, and whether the snippet's own
/// text stands there.
pub open spec fn snippet_location(
    generated: Seq<char>,
    phase: PhaseInfo,
    instance_cpp_name: Seq<char>,
    code: Seq<char>,
) -> (int, bool) {
    let lines = text::text_lines(generated);
    let len = lines.len() as int;
    let section = section_of(lines, phase, instance_cpp_name);
    let (start, end) = match section {
        Some(range) => range,
        None => (0, len),
    };
    match (found_in(lines, start, end, code), found_in(lines, 0, len, code), section) {
        (Some(line), _, _) => (line, true),
        (None, Some(line), Some(_)) => (line, true),
        (None, None, Some((start, _))) => (start, false),
        (None, _, None) => (0, false),
    }
}

/// A block ends after its first line, at the first end at which it is closed.
proof fn lemma_first_close(lines: Seq<Seq<char>>, start: int, from: int)
    requires
        from <= lines.len(),
    ensures
        ({
            let found = first_close(lines, start, from);
            &&& from <= found <= lines.len()
            &&& from < lines.len() ==> from < found
            &&& block_closed(lines, start, found) || found == lines.len()
            &&& forall|end: int|
                from < end < found ==> !#[trigger] block_closed(lines, start, end)
        }),
    decreases lines.len() - from,
{
    if from < lines.len() && !block_closed(lines, start, from + 1) {
        lemma_first_close(lines, start, from + 1);
    }
}

/// The line found has the text, and none before it does.
proof fn lemma_first_with_text(lines: Seq<Seq<char>>, text: Seq<char>, from: int, to: int)
    requires
        from <= to,
    ensures
        ({
            let found = first_with_text(lines, text, from, to);
            &&& from <= found <= to
            &&& found < to ==> text::trim(lines[found]) == text
            &&& forall|i: int| from <= i < found ==> text::trim(#[trigger] lines[i]) != text
        }),
    decreases to - from,
{
    if from < to && text::trim(lines[from]) != text {
        lemma_first_with_text(lines, text, from + 1, to);
    }
}

/// The line found begins with the prefix, and none before it does.
proof fn lemma_first_with_prefix(lines: Seq<Seq<char>>, prefix: Seq<char>, from: int)
    requires
        from <= lines.len(),
    ensures
        ({
            let found = first_with_prefix(lines, prefix, from);
            &&& from <= found <= lines.len()
            &&& found < lines.len() ==> prefix.is_prefix_of(text::trim_start(lines[found]))
            &&& forall|i: int|
                from <= i < found ==> !prefix.is_prefix_of(text::trim_start(#[trigger] lines[i]))
        }),
    decreases lines.len() - from,
{
    if from < lines.len() && !prefix.is_prefix_of(text::trim_start(lines[from])) {
        lemma_first_with_prefix(lines, prefix, from + 1);
    }
}

/// The section of a phase lies within the file.
proof fn lemma_section_bounds(
    lines: Seq<Seq<char>>,
    phase: PhaseInfo,
    instance_cpp_name: Seq<char>,
)
    ensures
        section_of(lines, phase, instance_cpp_name) matches Some((start, end)) ==> 0 <= start
            <= end <= lines.len(),
{
    let len = lines.len() as int;
    match phase.placement {
        Placement::Function(_) => {
            let header = function_header(phase.name@);
            lemma_first_with_prefix(lines, header, 0);
            let start = first_with_prefix(lines, header, 0);
            lemma_first_close(lines, start, start);
        },
        Placement::Namespace(ns) => {
            lemma_first_with_text(lines, namespace_header(ns@), 0, len);
            let outer = first_with_text(lines, namespace_header(ns@), 0, len);
            lemma_first_close(lines, outer, outer);
            let outer_end = end_of_block(lines, outer);
            let header = namespace_header(instance_cpp_name);
            lemma_first_with_text(lines, header, outer, outer_end);
            let inner = first_with_text(lines, header, outer, outer_end);
            lemma_first_close(lines, inner, inner);
        },
        Placement::Instances => {
            lemma_first_with_text(lines, "namespace ConfigObjects {"@, 0, len);
        },
    }
}

/// Whether the snippet stands at the line: the lines from there up to `to` begin with
/// those of the snippet. Lines are compared without surrounding whitespace, and blank
/// lines on either side do not count. A snippet of blank lines only stands nowhere.
pub open spec fn stands_at(
    lines: Seq<Seq<char>>,
    line: int,
    to: int,
    code: Seq<char>,
) -> bool {
    &&& !text::is_blank(lines[line])
    &&& snippet_lines(code).len() > 0
    &&& snippet_lines(code).is_prefix_of(
        text::trimmed_at(lines, text::nonblank(lines, line, to)),
    )
}

/// The lines that are not blank, from the one of number `k` among them on.
proof fn lemma_nonblank_skip(lines: Seq<Seq<char>>, from: int, to: int, k: int)
    requires
        0 <= k < text::nonblank(lines, from, to).len(),
    ensures
        text::nonblank(lines, text::nonblank(lines, from, to)[k], to) == text::nonblank(
            lines,
            from,
            to,
        ).skip(k),
{
    text::lemma_nonblank(lines, from, to);
    let hay = text::nonblank(lines, from, to);
    let line = hay[k];
    text::lemma_nonblank_splits(lines, from, line, to);
    text::lemma_nonblank(lines, from, line);
    text::lemma_nonblank(lines, line, to);
    let head = text::nonblank(lines, from, line);
    let tail = text::nonblank(lines, line, to);
    assert(hay == head + tail);
    if head.len() > k {
        assert(hay[k] == head[k]);
    } else if head.len() < k {
        assert(hay[k] == tail[k - head.len()]);
        assert(tail[0] < tail[k - head.len()]);
    }
    assert(head.len() == k);
    assert(hay.skip(k) =~= tail);
}

/// An occurrence among the lines that are not blank is a line at which the snippet stands.
proof fn lemma_occurs_where_it_stands(
    lines: Seq<Seq<char>>,
    from: int,
    to: int,
    code: Seq<char>,
    k: int,
)
    requires
        snippet_lines(code).len() > 0,
        0 <= k < text::nonblank(lines, from, to).len(),
    ensures
        occurs_at(
            text::trimmed_at(lines, text::nonblank(lines, from, to)),
            k,
            snippet_lines(code),
        ) <==> stands_at(lines, text::nonblank(lines, from, to)[k], to, code),
{
    text::lemma_nonblank(lines, from, to);
    lemma_nonblank_skip(lines, from, to, k);
    let needle = snippet_lines(code);
    let hay = text::nonblank(lines, from, to);
    let all = text::trimmed_at(lines, hay);
    let rest = text::trimmed_at(lines, hay.skip(k));
    assert(rest =~= all.skip(k));
    if k + needle.len() <= all.len() {
        assert(all.subrange(k, k + needle.len()) =~= rest.take(needle.len() as int));
        if occurs_at(all, k, needle) {
            assert(needle.is_prefix_of(rest));
        }
        if needle.is_prefix_of(rest) {
            assert(rest.take(needle.len() as int) =~= needle);
        }
    }
}

/// The first occurrence is one, and none comes before it.
proof fn lemma_first_occurrence(hay: Seq<Seq<char>>, k: int, needle: Seq<Seq<char>>)
    requires
        0 <= k,
        needle.len() > 0,
    ensures
        match first_occurrence(hay, k, needle) {
            Some(m) => {
                &&& k <= m < hay.len()
                &&& occurs_at(hay, m, needle)
                &&& forall|j: int| k <= j < m ==> !occurs_at(hay, j, needle)
            },
            None => forall|j: int| k <= j ==> !occurs_at(hay, j, needle),
        },
    decreases hay.len() - k,
{
    if k + needle.len() <= hay.len() && !occurs_at(hay, k, needle) {
        lemma_first_occurrence(hay, k + 1, needle);
    }
}

/// A snippet is found at the first line of the range at which it stands, and only where it
/// stands at one.
pub proof fn law_found_where_it_first_stands(
    lines: Seq<Seq<char>>,
    from: int,
    to: int,
    code: Seq<char>,
)
    ensures
        match found_in(lines, from, to, code) {
            Some(line) => {
                &&& from <= line < to
                &&& stands_at(lines, line, to, code)
                &&& forall|l: int| from <= l < line ==> !stands_at(lines, l, to, code)
            },
            None => forall|l: int| from <= l < to ==> !stands_at(lines, l, to, code),
        },
{
    let needle = snippet_lines(code);
    let hay = text::nonblank(lines, from, to);
    let all = text::trimmed_at(lines, hay);
    text::lemma_nonblank(lines, from, to);
    if needle.len() > 0 {
        lemma_first_occurrence(all, 0, needle);
        let found = first_occurrence(all, 0, needle);
        assert forall|l: int| from <= l < to && stands_at(lines, l, to, code) implies exists|k: int|
            0 <= k < hay.len() && hay[k] == l && occurs_at(all, k, needle) by {
            assert(!text::is_blank(lines[l]));
            assert(hay.contains(l));
            let k = choose|k: int| 0 <= k < hay.len() && hay[k] == l;
            lemma_occurs_where_it_stands(lines, from, to, code, k);
        }
        if let Some(m) = found {
            lemma_occurs_where_it_stands(lines, from, to, code, m);
            assert forall|l: int| from <= l < hay[m] implies !stands_at(lines, l, to, code) by {
                if stands_at(lines, l, to, code) {
                    let k = choose|k: int|
                        0 <= k < hay.len() && hay[k] == l && occurs_at(all, k, needle);
                    if m < k {
                        assert(hay[m] < hay[k]);
                    }
                }
            }
        }
    }
}

/// What stands at a line within a part of the file stands there in the whole file.
proof fn lemma_stands_in_more(
    lines: Seq<Seq<char>>,
    line: int,
    to: int,
    end: int,
    code: Seq<char>,
)
    requires
        line <= to <= end,
        stands_at(lines, line, to, code),
    ensures
        stands_at(lines, line, end, code),
{
    text::lemma_nonblank_splits(lines, line, to, end);
    let part = text::nonblank(lines, line, to);
    let rest = text::nonblank(lines, to, end);
    assert(text::trimmed_at(lines, part + rest) =~= text::trimmed_at(lines, part)
        + text::trimmed_at(lines, rest));
}

/// The text of a snippet is found exactly where the file holds it: the location is exact if
/// and only if the snippet stands somewhere in the file, and then it stands at the line
/// that is given.
pub proof fn law_exact_where_the_file_holds_the_snippet(
    generated: Seq<char>,
    phase: PhaseInfo,
    instance_cpp_name: Seq<char>,
    code: Seq<char>,
)
    ensures
        ({
            let lines = text::text_lines(generated);
            let len = lines.len() as int;
            let (line, exact) = snippet_location(generated, phase, instance_cpp_name, code);
            &&& exact <==> exists|l: int| 0 <= l < len && #[trigger] stands_at(lines, l, len, code)
            &&& exact ==> 0 <= line < len && stands_at(lines, line, len, code)
        }),
{
    let lines = text::text_lines(generated);
    let len = lines.len() as int;
    lemma_section_bounds(lines, phase, instance_cpp_name);
    law_found_where_it_first_stands(lines, 0, len, code);
    if let Some((start, end)) = section_of(lines, phase, instance_cpp_name) {
        law_found_where_it_first_stands(lines, start, end, code);
        if let Some(line) = found_in(lines, start, end, code) {
            lemma_stands_in_more(lines, line, end, len, code);
        }
    }
}

/// Where the snippet stands in the section of its phase, the location is the first line of
/// the section at which it does, though it may stand elsewhere in the file too.
pub proof fn law_section_of_the_phase_comes_first(
    generated: Seq<char>,
    phase: PhaseInfo,
    instance_cpp_name: Seq<char>,
    code: Seq<char>,
    l: int,
)
    requires
        section_of(text::text_lines(generated), phase, instance_cpp_name) matches Some((start, end))
            && start <= l < end && stands_at(text::text_lines(generated), l, end, code),
    ensures
        ({
            let lines = text::text_lines(generated);
            let (start, end) = section_of(lines, phase, instance_cpp_name)->0;
            let (line, exact) = snippet_location(generated, phase, instance_cpp_name, code);
            &&& exact
            &&& start <= line <= l
            &&& stands_at(lines, line, end, code)
            &&& forall|k: int| start <= k < line ==> !stands_at(lines, k, end, code)
        }),
{
    let lines = text::text_lines(generated);
    let (start, end) = section_of(lines, phase, instance_cpp_name)->0;
    law_found_where_it_first_stands(lines, start, end, code);
}

/// A snippet stands at a line if and only if that line is not blank and every line of the
/// snippet that is not blank, from the first to the last, is the line of the same rank among
/// those from there on that are not blank, whitespace around lines aside; and the snippet has
/// such lines at all.
pub proof fn law_every_line_of_the_snippet_counts(
    lines: Seq<Seq<char>>,
    line: int,
    to: int,
    code: Seq<char>,
)
    requires
        0 <= line < to <= lines.len(),
    ensures
        ({
            let own = text::text_lines(code).filter_map(
                |l: Seq<char>|
                    if text::trim(l).len() > 0 {
                        Some(text::trim(l))
                    } else {
                        None
                    },
            );
            let there = lines.subrange(line, to).filter_map(
                |l: Seq<char>|
                    if text::trim(l).len() > 0 {
                        Some(text::trim(l))
                    } else {
                        None
                    },
            );
            stands_at(lines, line, to, code) <==> {
                &&& text::trim(lines[line]).len() > 0
                &&& own.len() > 0
                &&& own.len() <= there.len()
                &&& forall|k: int| 0 <= k < own.len() ==> #[trigger] own[k] == there[k]
            }
        }),
{
    text::law_content_is_every_line_that_is_not_blank(code);
    text::lemma_nonblank_is_filtered(lines, line, to);
    let own = snippet_lines(code);
    let there = text::trimmed_at(lines, text::nonblank(lines, line, to));
    if own.len() <= there.len() && (forall|k: int|
        0 <= k < own.len() ==> #[trigger] own[k] == there[k]) {
        assert(there.subrange(0, own.len() as int) =~= own);
    }
    if own.is_prefix_of(there) {
        assert forall|k: int| 0 <= k < own.len() implies #[trigger] own[k] == there[k] by {
            assert(there.subrange(0, own.len() as int)[k] == there[k]);
        }
    }
}

/// An exact location holds the whole snippet: every line of it that is not blank, from the
/// first to the last, equals, whitespace around lines aside, the line of the same rank among
/// the lines of the file from the location on that are not blank. Where the file holds the
/// whole snippet anywhere, the location is exact.
pub proof fn law_exact_location_holds_the_whole_snippet(
    generated: Seq<char>,
    phase: PhaseInfo,
    instance_cpp_name: Seq<char>,
    code: Seq<char>,
    l: int,
)
    ensures
        ({
            let lines = text::text_lines(generated);
            let len = lines.len() as int;
            let own = text::text_lines(code).filter_map(
                |l: Seq<char>|
                    if text::trim(l).len() > 0 {
                        Some(text::trim(l))
                    } else {
                        None
                    },
            );
            let (line, exact) = snippet_location(generated, phase, instance_cpp_name, code);
            let there = lines.subrange(line, len).filter_map(
                |l: Seq<char>|
                    if text::trim(l).len() > 0 {
                        Some(text::trim(l))
                    } else {
                        None
                    },
            );
            let anywhere = lines.subrange(l, len).filter_map(
                |l: Seq<char>|
                    if text::trim(l).len() > 0 {
                        Some(text::trim(l))
                    } else {
                        None
                    },
            );
            &&& exact ==> {
                &&& 0 <= line < len
                &&& text::trim(lines[line]).len() > 0
                &&& 0 < own.len() <= there.len()
                &&& forall|k: int| 0 <= k < own.len() ==> #[trigger] own[k] == there[k]
            }
            &&& 0 <= l < len && 0 < own.len() <= anywhere.len() && text::trim(lines[l]).len() > 0
                && (forall|k: int| 0 <= k < own.len() ==> #[trigger] own[k] == anywhere[k])
                ==> exact
        }),
{
    let lines = text::text_lines(generated);
    let len = lines.len() as int;
    law_exact_where_the_file_holds_the_snippet(generated, phase, instance_cpp_name, code);
    let (line, exact) = snippet_location(generated, phase, instance_cpp_name, code);
    if exact {
        law_every_line_of_the_snippet_counts(lines, line, len, code);
    }
    if 0 <= l < len {
        law_every_line_of_the_snippet_counts(lines, l, len, code);
    }
}

/// The location is the first line of the phase's section at which the snippet stands within
/// the section; else the first line of the file at which it stands; else the first line of the
/// section; else the top of the file.
pub proof fn law_location_is_searched_in_order(
    generated: Seq<char>,
    phase: PhaseInfo,
    instance_cpp_name: Seq<char>,
    code: Seq<char>,
    l: int,
)
    ensures
        ({
            let lines = text::text_lines(generated);
            let len = lines.len() as int;
            let found = snippet_location(generated, phase, instance_cpp_name, code);
            let first_in_file = 0 <= l < len && stands_at(lines, l, len, code) && (forall|k: int|
                0 <= k < l ==> !stands_at(lines, k, len, code));
            let nowhere = forall|k: int| 0 <= k < len ==> !stands_at(lines, k, len, code);
            match section_of(lines, phase, instance_cpp_name) {
                Some((start, end)) => {
                    &&& start <= l < end && stands_at(lines, l, end, code) && (forall|k: int|
                        start <= k < l ==> !stands_at(lines, k, end, code)) ==> found == (l, true)
                    &&& first_in_file && (forall|k: int|
                        start <= k < end ==> !stands_at(lines, k, end, code)) ==> found == (l, true)
                    &&& nowhere ==> found == (start, false)
                },
                None => {
                    &&& first_in_file ==> found == (l, true)
                    &&& nowhere ==> found == (0int, false)
                },
            }
        }),
{
    let lines = text::text_lines(generated);
    let len = lines.len() as int;
    lemma_section_bounds(lines, phase, instance_cpp_name);
    law_found_where_it_first_stands(lines, 0, len, code);
    if let Some((start, end)) = section_of(lines, phase, instance_cpp_name) {
        law_found_where_it_first_stands(lines, start, end, code);
        if let Some(line) = found_in(lines, start, end, code) {
            lemma_stands_in_more(lines, line, end, len, code);
        }
    }
}

/// Whether the lines from `at` on are those of the snippet, however they are indented.
pub open spec fn is_spliced_at(lines: Seq<Seq<char>>, at: int, code: Seq<char>) -> bool {
    forall|k: int|
        0 <= k < text::text_lines(code).len() ==> text::trim(#[trigger] text::text_lines(code)[k])
            == text::trim(lines[at + k])
}

/// A snippet stands where it is spliced in: at the first of its lines that is not blank.
proof fn lemma_spliced_snippet_stands(
    lines: Seq<Seq<char>>,
    at: int,
    to: int,
    code: Seq<char>,
) -> (line: int)
    requires
        is_spliced_at(lines, at, code),
        snippet_lines(code).len() > 0,
        at + text::text_lines(code).len() <= to,
    ensures
        at <= line < at + text::text_lines(code).len(),
        stands_at(lines, line, to, code),
{
    let own = text::text_lines(code);
    let len = own.len() as int;
    let end = at + len;
    assert forall|i: int| 0 <= i < len implies text::trim(#[trigger] own[i]) == text::trim(
        lines[i + at],
    ) by {
        assert(lines[i + at] == lines[at + i]);
    }
    text::lemma_nonblank_moved(own, lines, 0, len, at);
    text::lemma_nonblank(lines, at, end);
    let hay = text::nonblank(lines, at, end);
    assert(snippet_lines(code) == text::trimmed_at(lines, hay));
    let line = hay[0];
    lemma_nonblank_skip(lines, at, end, 0);
    assert(hay.skip(0) =~= hay);
    text::lemma_nonblank_splits(lines, line, end, to);
    let rest = text::nonblank(lines, end, to);
    assert(text::trimmed_at(lines, hay + rest) =~= text::trimmed_at(lines, hay)
        + text::trimmed_at(lines, rest));
    line
}

/// A snippet that is spliced into the section of its phase is found there, however it was
/// indented: the location is exact, in the section, and no further down than the snippet.
pub proof fn law_spliced_snippet_is_found(
    generated: Seq<char>,
    phase: PhaseInfo,
    instance_cpp_name: Seq<char>,
    code: Seq<char>,
    at: int,
)
    requires
        snippet_lines(code).len() > 0,
        is_spliced_at(text::text_lines(generated), at, code),
        section_of(text::text_lines(generated), phase, instance_cpp_name) matches Some((start, end))
            && start <= at && at + text::text_lines(code).len() <= end,
    ensures
        ({
            let lines = text::text_lines(generated);
            let (start, end) = section_of(lines, phase, instance_cpp_name)->0;
            let (line, exact) = snippet_location(generated, phase, instance_cpp_name, code);
            &&& exact
            &&& start <= line < at + text::text_lines(code).len()
            &&& stands_at(lines, line, end, code)
        }),
{
    let lines = text::text_lines(generated);
    let (start, end) = section_of(lines, phase, instance_cpp_name)->0;
    let line = lemma_spliced_snippet_stands(lines, at, end, code);
    law_section_of_the_phase_comes_first(generated, phase, instance_cpp_name, code, line);
}

/// Where the text of the snippet is not found, the location is the first line of the
/// phase's section and, where the file has no such section, the top of the file.
pub proof fn law_section_is_the_fallback(
    generated: Seq<char>,
    phase: PhaseInfo,
    instance_cpp_name: Seq<char>,
    code: Seq<char>,
)
    requires
        !snippet_location(generated, phase, instance_cpp_name, code).1,
    ensures
        snippet_location(generated, phase, instance_cpp_name, code).0 == (match section_of(
            text::text_lines(generated),
            phase,
            instance_cpp_name,
        ) {
            Some((start, _)) => start,
            None => 0,
        }),
{
}

/// The location lies in the file, or is its top.
pub proof fn law_location_lies_in_the_file(
    generated: Seq<char>,
    phase: PhaseInfo,
    instance_cpp_name: Seq<char>,
    code: Seq<char>,
)
    ensures
        ({
            let line = snippet_location(generated, phase, instance_cpp_name, code).0;
            line == 0 || 0 < line < text::text_lines(generated).len()
        }),
{
    let lines = text::text_lines(generated);
    lemma_section_bounds(lines, phase, instance_cpp_name);
    law_exact_where_the_file_holds_the_snippet(generated, phase, instance_cpp_name, code);
    if let Some((start, end)) = section_of(lines, phase, instance_cpp_name) {
        law_section_begins_with_its_header(lines, phase, instance_cpp_name);
    }
}

/// Snippets of the same content are found at the same place, however they are indented and
/// whatever blank lines they hold.
pub proof fn law_location_depends_on_the_content(
    generated: Seq<char>,
    phase: PhaseInfo,
    instance_cpp_name: Seq<char>,
    a: Seq<char>,
    b: Seq<char>,
)
    requires
        text::content_lines(a) == text::content_lines(b),
    ensures
        snippet_location(generated, phase, instance_cpp_name, a) == snippet_location(
            generated,
            phase,
            instance_cpp_name,
            b,
        ),
{
}

/// A block ends with the first line at which its braces are closed, and at the end of the
/// file where they never are.
pub proof fn law_block_ends_where_its_braces_close(lines: Seq<Seq<char>>, start: int)
    requires
        0 <= start < lines.len(),
    ensures
        start < end_of_block(lines, start) <= lines.len(),
        forall|end: int|
            start < end < end_of_block(lines, start) ==> !#[trigger] block_closed(
                lines,
                start,
                end,
            ),
        block_closed(lines, start, end_of_block(lines, start)) || end_of_block(lines, start)
            == lines.len(),
{
    lemma_first_close(lines, start, start);
}

/// The braces in a range of lines are those of its lines together.
proof fn lemma_depth_is_counted(lines: Seq<Seq<char>>, start: int, end: int)
    requires
        0 <= start <= end <= lines.len(),
    ensures
        ({
            let all = lines.subrange(start, end).flatten();
            &&& brace_depth(lines, start, end) == all.to_multiset().count('{')
                - all.to_multiset().count('}')
            &&& brace_opened(lines, start, end) <==> all.contains('{')
        }),
    decreases end - start,
{
    let part = lines.subrange(start, end);
    if start < end {
        lemma_depth_is_counted(lines, start, end - 1);
        let before = lines.subrange(start, end - 1);
        let last = lines[end - 1];
        assert(part =~= before.push(last));
        before.lemma_flatten_push(last);
        let (x, y) = (before.flatten(), last);
        assert(part.flatten() == x + y);
        vstd::seq_lib::lemma_multiset_commutative(x, y);
        text::law_braces_are_counted(last);
        if brace_opened(lines, start, end - 1) {
            let i = choose|i: int| start <= i < end - 1 && (#[trigger] lines[i]).contains('{');
            assert(lines[i].contains('{'));
            let k = choose|k: int| 0 <= k < x.len() && x[k] == '{';
            assert((x + y)[k] == '{');
        }
        if last.contains('{') {
            let k = choose|k: int| 0 <= k < y.len() && y[k] == '{';
            assert((x + y)[x.len() + k] == '{');
            assert(lines[end - 1].contains('{'));
        }
        if (x + y).contains('{') {
            let k = choose|k: int| 0 <= k < (x + y).len() && (x + y)[k] == '{';
            if k < x.len() {
                assert(x[k] == '{');
                let i = choose|i: int| start <= i < end - 1 && (#[trigger] lines[i]).contains('{');
                assert(lines[i].contains('{'));
            } else {
                assert(y[k - x.len()] == '{');
                assert(lines[end - 1].contains('{'));
            }
        }
    } else {
        let all = part.flatten();
        assert(part =~= Seq::empty());
        assert(all =~= Seq::empty());
        all.to_multiset_ensures();
        assert(!all.contains('{') && !all.contains('}'));
    }
}

/// A block ends after the first line, counted from its own first line, up to which there is an
/// opening brace and there are no more opening braces than closing ones. Where there is no such
/// line, it ends with the file.
pub proof fn law_block_ends_where_braces_balance(lines: Seq<Seq<char>>, start: int, end: int)
    requires
        0 <= start < end <= lines.len(),
        end == lines.len() || ({
            let all = lines.subrange(start, end).flatten();
            all.contains('{') && all.to_multiset().count('{') <= all.to_multiset().count('}')
        }),
        forall|e: int|
            #![trigger lines.subrange(start, e)]
            start < e < end ==> ({
                let all = lines.subrange(start, e).flatten();
                !(all.contains('{') && all.to_multiset().count('{') <= all.to_multiset().count('}'))
            }),
    ensures
        end_of_block(lines, start) == end,
{
    law_block_ends_where_its_braces_close(lines, start);
    let found = end_of_block(lines, start);
    lemma_depth_is_counted(lines, start, found);
    lemma_depth_is_counted(lines, start, end);
    let all = lines.subrange(start, found).flatten();
    if found < end {
        assert(block_closed(lines, start, found));
        assert(all.contains('{') && all.to_multiset().count('{') <= all.to_multiset().count('}'));
    } else if end < found {
        assert(block_closed(lines, start, end));
    }
}

/// The section of a phase with a helper function is the block of the first line that, without
/// its indentation, begins with `void <phase>(`. Without such a line there is none.
pub proof fn law_function_section(
    lines: Seq<Seq<char>>,
    phase: PhaseInfo,
    instance_cpp_name: Seq<char>,
    start: int,
)
    requires
        phase.placement is Function,
    ensures
        ({
            let header = "void "@ + phase.name@ + "("@;
            let section = section_of(lines, phase, instance_cpp_name);
            &&& 0 <= start < lines.len() && header.is_prefix_of(text::trim_start(lines[start])) && (
            forall|i: int|
                0 <= i < start ==> !header.is_prefix_of(text::trim_start(#[trigger] lines[i])))
                ==> section == Some((start, end_of_block(lines, start)))
            &&& (forall|i: int|
                0 <= i < lines.len() ==> !header.is_prefix_of(
                    text::trim_start(#[trigger] lines[i]),
                )) ==> section is None
        }),
{
    lemma_first_with_prefix(lines, "void "@ + phase.name@ + "("@, 0);
}

/// The section of a phase with a namespace is the block of the first line
/// `namespace <Instance> {` within the block of the first line `namespace <Ns> {`, whitespace
/// around lines aside. Without the one or the other there is none.
pub proof fn law_namespace_section(
    lines: Seq<Seq<char>>,
    phase: PhaseInfo,
    instance_cpp_name: Seq<char>,
    outer: int,
    inner: int,
)
    requires
        phase.placement is Namespace,
    ensures
        ({
            let ns = phase.placement->Namespace_0@;
            let outer_header = "namespace "@ + ns + " {"@;
            let inner_header = "namespace "@ + instance_cpp_name + " {"@;
            let section = section_of(lines, phase, instance_cpp_name);
            let is_outer = 0 <= outer < lines.len() && text::trim(lines[outer]) == outer_header && (
            forall|i: int|
                0 <= i < outer ==> text::trim(#[trigger] lines[i]) != outer_header);
            &&& is_outer && outer <= inner < end_of_block(lines, outer) && text::trim(lines[inner])
                == inner_header && (forall|i: int|
                outer <= i < inner ==> text::trim(#[trigger] lines[i]) != inner_header) ==> section
                == Some((inner, end_of_block(lines, inner)))
            &&& is_outer && (forall|i: int|
                outer <= i < end_of_block(lines, outer) ==> text::trim(#[trigger] lines[i])
                    != inner_header) ==> section is None
            &&& (forall|i: int|
                0 <= i < lines.len() ==> text::trim(#[trigger] lines[i]) != outer_header)
                ==> section is None
        }),
{
    let len = lines.len() as int;
    let ns = phase.placement->Namespace_0@;
    let outer_header = "namespace "@ + ns + " {"@;
    let inner_header = "namespace "@ + instance_cpp_name + " {"@;
    lemma_first_with_text(lines, outer_header, 0, len);
    let first = first_with_text(lines, outer_header, 0, len);
    lemma_first_close(lines, first, first);
    lemma_first_with_text(lines, inner_header, first, end_of_block(lines, first));
}

/// The section of the instance definitions goes from the top of the file to the first line
/// `namespace ConfigObjects {`, whitespace around it aside, or to the end of the file.
pub proof fn law_instances_section(
    lines: Seq<Seq<char>>,
    phase: PhaseInfo,
    instance_cpp_name: Seq<char>,
    end: int,
)
    requires
        phase.placement is Instances,
        0 <= end <= lines.len(),
        end < lines.len() ==> text::trim(lines[end]) == "namespace ConfigObjects {"@,
        forall|i: int|
            0 <= i < end ==> text::trim(#[trigger] lines[i]) != "namespace ConfigObjects {"@,
    ensures
        section_of(lines, phase, instance_cpp_name) == Some((0int, end)),
{
    lemma_first_with_text(lines, "namespace ConfigObjects {"@, 0, lines.len() as int);
}

/// Whether none of the lines `from..to`, without surrounding whitespace, is `text`.
pub open spec fn has_no_text(lines: Seq<Seq<char>>, text: Seq<char>, from: int, to: int) -> bool {
    forall|i: int| from <= i < to ==> text::trim(#[trigger] lines[i]) != text
}

/// Whether line `i` is the first of the lines `from..to` that, without surrounding
/// whitespace, is `text`.
pub open spec fn is_first_text(
    lines: Seq<Seq<char>>,
    text: Seq<char>,
    from: int,
    to: int,
    i: int,
) -> bool {
    &&& from <= i < to
    &&& text::trim(lines[i]) == text
    &&& has_no_text(lines, text, from, i)
}

/// The section of a phase begins with its header: the first line that opens the helper
/// function of the phase, or the first line that opens the instance's namespace within the
/// namespace of the phase. There is no section only where there is no such line. Instance
/// definitions need no header: their section goes from the top of the file to the
/// configuration objects.
pub proof fn law_section_begins_with_its_header(
    lines: Seq<Seq<char>>,
    phase: PhaseInfo,
    instance_cpp_name: Seq<char>,
)
    ensures
        match (phase.placement, section_of(lines, phase, instance_cpp_name)) {
            (Placement::Function(_), Some((start, end))) => {
                let header = function_header(phase.name@);
                &&& 0 <= start < lines.len()
                &&& header.is_prefix_of(text::trim_start(lines[start]))
                &&& forall|i: int|
                    0 <= i < start ==> !header.is_prefix_of(text::trim_start(#[trigger] lines[i]))
                &&& end == end_of_block(lines, start)
            },
            (Placement::Function(_), None) => forall|i: int|
                0 <= i < lines.len() ==> !function_header(phase.name@).is_prefix_of(
                    text::trim_start(#[trigger] lines[i]),
                ),
            (Placement::Namespace(ns), Some((start, end))) => {
                &&& end == end_of_block(lines, start)
                &&& exists|outer: int|
                    #![trigger end_of_block(lines, outer)]
                    is_first_text(lines, namespace_header(ns@), 0, lines.len() as int, outer)
                        && is_first_text(
                        lines,
                        namespace_header(instance_cpp_name),
                        outer,
                        end_of_block(lines, outer),
                        start,
                    )
                &&& 0 <= start < lines.len()
            },
            (Placement::Namespace(ns), None) => {
                ||| has_no_text(lines, namespace_header(ns@), 0, lines.len() as int)
                ||| exists|outer: int|
                    #![trigger end_of_block(lines, outer)]
                    is_first_text(lines, namespace_header(ns@), 0, lines.len() as int, outer)
                        && has_no_text(
                        lines,
                        namespace_header(instance_cpp_name),
                        outer,
                        end_of_block(lines, outer),
                    )
            },
            (Placement::Instances, None) => false,
            (Placement::Instances, Some((start, end))) => {
                let header = "namespace ConfigObjects {"@;
                let len = lines.len() as int;
                &&& start == 0
                &&& is_first_text(lines, header, 0, len, end) || end == len && has_no_text(
                    lines,
                    header,
                    0,
                    len,
                )
            },
        },
{
    let len = lines.len() as int;
    match phase.placement {
        Placement::Function(_) => {
            lemma_first_with_prefix(lines, function_header(phase.name@), 0);
        },
        Placement::Namespace(ns) => {
            lemma_first_with_text(lines, namespace_header(ns@), 0, len);
            let outer = first_with_text(lines, namespace_header(ns@), 0, len);
            lemma_first_close(lines, outer, outer);
            let outer_end = end_of_block(lines, outer);
            lemma_first_with_text(lines, namespace_header(instance_cpp_name), outer, outer_end);
            if outer < len {
                assert(is_first_text(lines, namespace_header(ns@), 0, len, outer));
            }
        },
        Placement::Instances => {
            lemma_first_with_text(lines, "namespace ConfigObjects {"@, 0, len);
        },
    }
}

/// Index of the first line at or after `from` that, without its indentation,
/// begins with `prefix`; the number of lines where there is none.
fn find_prefix(lines: &TextLines, prefix: &Vec<char>, from: usize) -> (r: usize)
    requires
        from <= lines@.len(),
    ensures
        r == first_with_prefix(lines@, prefix@, from as int),
        from <= r <= lines@.len(),
{
    let mut i: usize = from;
    while i < lines.len() && !lines.begins_with(i, prefix)
        invariant
            from <= i <= lines@.len(),
            first_with_prefix(lines@, prefix@, from as int) == first_with_prefix(
                lines@,
                prefix@,
                i as int,
            ),
        decreases lines@.len() - i,
    {
        i += 1;
    }
    i
}

/// Index of the first line in `from..to` that, without surrounding whitespace, is
/// `text`; `to` where there is none.
fn find_text(lines: &TextLines, text: &Vec<char>, from: usize, to: usize) -> (r: usize)
    requires
        from <= to <= lines@.len(),
    ensures
        r == first_with_text(lines@, text@, from as int, to as int),
        from <= r <= to,
{
    let mut i: usize = from;
    while i < to && !lines.is_text(i, text)
        invariant
            from <= i <= to <= lines@.len(),
            first_with_text(lines@, text@, from as int, to as int) == first_with_text(
                lines@,
                text@,
                i as int,
                to as int,
            ),
        decreases to - i,
    {
        i += 1;
    }
    i
}

/// Index one past the line closing the brace block opened on `start`.
pub fn block_end(lines: &TextLines, start: usize) -> (r: usize)
    ensures
        r == end_of_block(lines@, start as int),
        start <= lines@.len() ==> start <= r <= lines@.len(),
{
    let len: usize = lines.len();
    let mut depth: i128 = 0;
    let mut opened: bool = false;
    let mut i: usize = start;
    while i < len
        invariant
            len == lines@.len(),
            start <= i,
            start <= len ==> i <= len,
            start < i ==> start < len,
            depth == brace_depth(lines@, start as int, i as int),
            opened == brace_opened(lines@, start as int, i as int),
            i == start ==> depth == 0,
            i < len ==> -lines.offset(i as int) <= depth <= lines.offset(i as int) || depth == 0,
            end_of_block(lines@, start as int) == first_close(lines@, start as int, i as int),
        decreases len - i,
    {
        let (net, opens): (i128, bool) = lines.braces(i);
        depth += net;
        proof {
            assert(brace_opened(lines@, start as int, i + 1) == (opened || opens)) by {
                if opened {
                    let j = choose|j: int|
                        start <= j < i && (#[trigger] lines@[j]).contains('{');
                    assert(lines@[j].contains('{'));
                }
                if opens {
                    assert(lines@[i as int].contains('{'));
                }
            }
        }
        opened = opened || opens;
        if opened && depth <= 0 {
            return i + 1;
        }
        i += 1;
    }
    len
}

/// The line range of the phase's section in the generated file.
pub fn phase_section(lines: &TextLines, phase: &PhaseInfo, instance_cpp_name: &str) -> (r: Option<
    (usize, usize),
>)
    ensures
        r is Some <==> section_of(lines@, *phase, instance_cpp_name@) is Some,
        r matches Some((start, end)) ==> {
            &&& section_of(lines@, *phase, instance_cpp_name@) == Some((start as int, end as int))
            &&& start <= end <= lines@.len()
        },
{
    proof {
        lemma_section_bounds(lines@, *phase, instance_cpp_name@);
    }
    let len: usize = lines.len();
    match phase.placement {
        Placement::Function(_) => {
            let header: String = "void ".to_string().concat(phase.name).concat("(");
            let start: usize = find_prefix(lines, &to_chars(header.as_str()), 0);
            if start < len {
                Some((start, block_end(lines, start)))
            } else {
                None
            }
        },
        Placement::Namespace(ns) => {
            let outer_header: String = "namespace ".to_string().concat(ns).concat(" {");
            let outer: usize = find_text(lines, &to_chars(outer_header.as_str()), 0, len);
            if outer >= len {
                return None;
            }
            let outer_end: usize = block_end(lines, outer);
            let inner_header: String = "namespace ".to_string().concat(instance_cpp_name).concat(
                " {",
            );
            let inner: usize = find_text(
                lines,
                &to_chars(inner_header.as_str()),
                outer,
                outer_end,
            );
            if inner < outer_end {
                Some((inner, block_end(lines, inner)))
            } else {
                None
            }
        },
        Placement::Instances => {
            // Instance definitions precede the configuration objects and the helper
            // functions, so the search ends there when it can.
            let end: usize = find_text(lines, &to_chars("namespace ConfigObjects {"), 0, len);
            Some((0, end))
        },
    }
}

/// Find `code`, compared line by line without surrounding whitespace and with blank
/// lines ignored, in the lines `start..end`; returns the index of the first
/// matching line.
pub fn find_lines(lines: &TextLines, start: usize, end: usize, code: &str) -> (r: Option<usize>)
    requires
        start <= end <= lines@.len(),
    ensures
        r is Some <==> found_in(lines@, start as int, end as int, code@) is Some,
        r matches Some(line) ==> {
            &&& found_in(lines@, start as int, end as int, code@) == Some(line as int)
            &&& start <= line < end
        },
{
    let needle: Vec<Vec<char>> = text::split_content(code);
    let ghost sought = snippet_lines(code@);
    if needle.len() == 0 {
        return None;
    }
    let hay: Vec<usize> = lines.nonblank_lines(start, end);
    let ghost hay_lines = text::trimmed_at(lines@, text::indices(hay@));
    let count: usize = hay.len();
    let mut k: usize = 0;
    while k < count && needle.len() <= count - k
        invariant
            k <= count == hay@.len(),
            0 < needle@.len(),
            text::char_lines(needle@) == sought,
            hay_lines == text::trimmed_at(lines@, text::indices(hay@)),
            start <= end <= lines@.len(),
            text::indices(hay@) == text::nonblank(lines@, start as int, end as int),
            forall|j: int| 0 <= j < hay@.len() ==> start <= #[trigger] hay@[j] < end,
            sought == snippet_lines(code@),
            first_occurrence(hay_lines, 0, sought) == first_occurrence(
                hay_lines,
                k as int,
                sought,
            ),
        decreases hay@.len() - k,
    {
        let mut j: usize = 0;
        while j < needle.len() && lines.is_text(hay[k + j], &needle[j])
            invariant
                j <= needle@.len(),
                k + needle@.len() <= count == hay@.len(),
                end <= lines@.len(),
                forall|m: int| 0 <= m < hay@.len() ==> start <= #[trigger] hay@[m] < end,
                forall|m: int|
                    0 <= m < j ==> text::trim(lines@[hay@[k + m] as int]) == (
                    #[trigger] needle@[m])@,
            decreases needle@.len() - j,
        {
            j += 1;
        }
        let ghost window = hay_lines.subrange(k as int, k + sought.len());
        if j == needle.len() {
            assert(window =~= sought) by {
                assert forall|m: int| 0 <= m < sought.len() implies window[m] == sought[m] by {
                    assert(needle@[m]@ == text::char_lines(needle@)[m]);
                }
            }
            return Some(hay[k]);
        }
        assert(window[j as int] != sought[j as int]) by {
            assert(needle@[j as int]@ == text::char_lines(needle@)[j as int]);
        }
        k += 1;
    }
    None
}

/// Find the line the snippet was emitted at in a generated file.
///
/// Returns `(line, exact)`: the zero-based line of the first snippet line when
/// the snippet text is found inside the phase's section or, failing that, anywhere
/// in the file; otherwise the first line of the section (`exact == false`), otherwise
/// line 0. A line number keeps its low 32 bits.
pub fn locate_snippet(
    generated: &str,
    phase: &PhaseInfo,
    instance_cpp_name: &str,
    code: &str,
) -> (r: (u32, bool))
    ensures
        ({
            let (line, exact) = snippet_location(
                generated@,
                *phase,
                instance_cpp_name@,
                code@,
            );
            r.0 == line as u32 && r.1 == exact
        }),
{
    let lines: TextLines = TextLines::split(generated);
    let len: usize = lines.len();
    let section: Option<(usize, usize)> = phase_section(&lines, phase, instance_cpp_name);
    let (start, end): (usize, usize) = match section {
        Some(range) => range,
        None => (0, len),
    };
    if let Some(line) = find_lines(&lines, start, end, code) {
        return (line as u32, true);
    }
    // The snippet may have been edited since the last build, or moved to another
    // phase: search the whole file before falling back to the section.
    if section.is_some() {
        if let Some(line) = find_lines(&lines, 0, len, code) {
            return (line as u32, true);
        }
        return (start as u32, false);
    }
    (0, false)
}

} // verus!
