//! Where the build directory of a source directory is.
//!
//! A build cache lists pairs of a source root and its build root. A source directory
//! is mapped into the cache by the longest source root that it lies under.

use crate::path;
use crate::text::{self, from_chars};
use vstd::prelude::*;

verus! {

/// The pairs of texts of a sequence of pairs of strings.
pub open spec fn pair_texts(pairs: Seq<(String, String)>) -> Seq<(Seq<char>, Seq<char>)> {
    Seq::new(pairs.len(), |i: int| (pairs[i].0@, pairs[i].1@))
}

/// The pairs that a locations file lists: one path per line that is not blank, without
/// surrounding whitespace. A path without a partner at the end is left out.
pub open spec fn location_pairs(contents: Seq<char>) -> Seq<(Seq<char>, Seq<char>)> {
    let lines = text::content_lines(contents);
    Seq::new(lines.len() / 2, |i: int| (lines[2 * i], lines[2 * i + 1]))
}

/// The texts of pairs are those of both sides of each, in their order.
pub proof fn law_pairs_are_told_whole(pairs: Seq<(String, String)>)
    ensures
        pair_texts(pairs) == pairs.map_values(|p: (String, String)| (p.0@, p.1@)),
{
    assert(pair_texts(pairs) =~= pairs.map_values(|p: (String, String)| (p.0@, p.1@)));
}

/// Parse `fprime-locations.fprime-util` into `(source root, build root)` pairs.
pub fn parse_fprime_locations(contents: &str) -> (r: Vec<(String, String)>)
    ensures
        pair_texts(r@) == location_pairs(contents@),
{
    let lines: Vec<Vec<char>> = text::split_content(contents);
    let ghost all = text::content_lines(contents@);
    let len: usize = lines.len();
    let mut r: Vec<(String, String)> = Vec::new();
    let mut i: usize = 0;
    while len - i >= 2
        invariant
            i <= len == lines@.len(),
            all == text::char_lines(lines@),
            i == 2 * r@.len(),
            forall|k: int|
                0 <= k < r@.len() ==> (#[trigger] r@[k]).0@ == all[2 * k] && r@[k].1@ == all[2 * k
                    + 1],
        decreases len - i,
    {
        let source: String = from_chars(&lines[i], 0, lines[i].len());
        let build: String = from_chars(&lines[i + 1], 0, lines[i + 1].len());
        assert(source@ =~= all[i as int]);
        assert(build@ =~= all[i + 1]);
        r.push((source, build));
        i += 2;
    }
    assert(pair_texts(r@) =~= location_pairs(contents@));
    r
}

/// The lines that are not blank, without surrounding whitespace, are paired two by two, all of
/// them in their order but for an odd one at the end.
pub proof fn law_lines_are_paired_two_by_two(contents: Seq<char>)
    ensures
        ({
            let lines = text::text_lines(contents).filter_map(
                |l: Seq<char>|
                    if text::trim(l).len() > 0 {
                        Some(text::trim(l))
                    } else {
                        None
                    },
            );
            &&& location_pairs(contents).len() == lines.len() / 2
            &&& forall|i: int|
                0 <= i < lines.len() / 2 ==> #[trigger] location_pairs(contents)[i] == (
                    lines[2 * i],
                    lines[2 * i + 1],
                )
        }),
{
    text::law_content_is_every_line_that_is_not_blank(contents);
}

/// Number of bytes of a text.
pub open spec fn byte_len(s: Seq<char>) -> nat {
    vstd::utf8::encode_utf8(s).len()
}

/// Whether `dir` lies under the source root of pair `i`.
pub open spec fn is_under(pairs: Seq<(Seq<char>, Seq<char>)>, dir: Seq<char>, i: int) -> bool {
    &&& 0 <= i < pairs.len()
    &&& path::stripped(dir, pairs[i].0) is Some
}

/// Whether the source root of pair `i` is the longest that `dir` lies under, and the last
/// of that length.
pub open spec fn is_longest_root(
    pairs: Seq<(Seq<char>, Seq<char>)>,
    dir: Seq<char>,
    i: int,
) -> bool {
    &&& is_under(pairs, dir, i)
    &&& forall|j: int| #[trigger]
        is_under(pairs, dir, j) ==> byte_len(pairs[j].0) <= byte_len(pairs[i].0)
    &&& forall|j: int| #[trigger]
        is_under(pairs, dir, j) && i < j ==> byte_len(pairs[j].0) < byte_len(pairs[i].0)
}

/// Where pair `i` puts `dir` in the build cache.
pub open spec fn mapped_by(
    pairs: Seq<(Seq<char>, Seq<char>)>,
    dir: Seq<char>,
    i: int,
) -> Seq<char> {
    path::joined(pairs[i].1, path::stripped(dir, pairs[i].0)->0)
}

/// The build directory of `dir`, by the longest source root that it lies under.
pub open spec fn mapped(pairs: Seq<(Seq<char>, Seq<char>)>, dir: Seq<char>) -> Option<Seq<char>> {
    if exists|i: int| is_longest_root(pairs, dir, i) {
        Some(mapped_by(pairs, dir, choose|i: int| is_longest_root(pairs, dir, i)))
    } else {
        None
    }
}

/// No two pairs are the longest root of a directory.
pub proof fn law_longest_root_is_unique(
    pairs: Seq<(Seq<char>, Seq<char>)>,
    dir: Seq<char>,
    i: int,
    j: int,
)
    requires
        is_longest_root(pairs, dir, i),
        is_longest_root(pairs, dir, j),
    ensures
        i == j,
{
    assert(is_under(pairs, dir, i) && is_under(pairs, dir, j));
}

/// The longest source root wins: the directory is mapped by the pair that has it.
pub proof fn law_longest_root_wins(
    pairs: Seq<(Seq<char>, Seq<char>)>,
    dir: Seq<char>,
    i: int,
)
    requires
        is_longest_root(pairs, dir, i),
    ensures
        mapped(pairs, dir) == Some(mapped_by(pairs, dir, i)),
{
    let k = choose|k: int| is_longest_root(pairs, dir, k);
    law_longest_root_is_unique(pairs, dir, i, k);
}

/// A directory is mapped exactly where it lies under some source root.
pub proof fn law_mapped_where_under_a_root(
    pairs: Seq<(Seq<char>, Seq<char>)>,
    dir: Seq<char>,
)
    ensures
        mapped(pairs, dir) is Some <==> exists|i: int| is_under(pairs, dir, i),
{
    if mapped(pairs, dir) is Some {
        let i = choose|i: int| is_longest_root(pairs, dir, i);
        assert(is_under(pairs, dir, i));
    }
    if exists|i: int| is_under(pairs, dir, i) {
        let i = choose|i: int| is_under(pairs, dir, i);
        let best = lemma_some_longest_root(pairs, dir, pairs.len() as int, i);
        assert(pairs.take(pairs.len() as int) =~= pairs);
        assert(is_longest_root(pairs, dir, best));
    }
}

/// Among the first `n` pairs there is a last longest root, if there is a root at all.
proof fn lemma_some_longest_root(
    pairs: Seq<(Seq<char>, Seq<char>)>,
    dir: Seq<char>,
    n: int,
    witness: int,
) -> (best: int)
    requires
        0 <= witness < n <= pairs.len(),
        is_under(pairs, dir, witness),
    ensures
        0 <= best < n,
        is_longest_root(pairs.take(n), dir, best),
    decreases n,
{
    let now = pairs.take(n);
    let before = pairs.take(n - 1);
    assert forall|j: int| is_under(before, dir, j) implies is_under(now, dir, j) && before[j]
        == now[j] by {}
    assert forall|j: int| is_under(now, dir, j) && j < n - 1 implies is_under(before, dir, j)
        && before[j] == now[j] by {}
    if witness < n - 1 {
        let b = lemma_some_longest_root(pairs, dir, n - 1, witness);
        assert(is_under(before, dir, b));
        assert(is_under(now, dir, b));
        if is_under(now, dir, n - 1) && byte_len(now[b].0) <= byte_len(now[n - 1].0) {
            assert forall|j: int| is_under(now, dir, j) implies byte_len(#[trigger] now[j].0)
                <= byte_len(now[n - 1].0) by {
                if j < n - 1 {
                    assert(is_under(before, dir, j));
                }
            }
            n - 1
        } else {
            b
        }
    } else {
        assert(is_under(now, dir, n - 1));
        if exists|j: int| is_under(before, dir, j) {
            let j = choose|j: int| is_under(before, dir, j);
            assert(is_under(pairs, dir, j));
            let b = lemma_some_longest_root(pairs, dir, n - 1, j);
            if byte_len(now[b].0) <= byte_len(now[n - 1].0) {
                n - 1
            } else {
                b
            }
        } else {
            n - 1
        }
    }
}

/// Map a source directory into its build directory using the longest matching
/// source root.
pub fn map_source_to_build(pairs: &[(String, String)], source_dir: &str) -> (r: Option<String>)
    ensures
        text::optional(r) == mapped(pair_texts(pairs@), source_dir@),
{
    let ghost all = pair_texts(pairs@);
    let ghost dir = source_dir@;
    let mut best: Option<(usize, String)> = None;
    let ghost mut root: int = 0;
    let mut i: usize = 0;
    while i < pairs.len()
        invariant
            i <= pairs@.len(),
            all == pair_texts(pairs@),
            dir == source_dir@,
            match best {
                None => forall|j: int| 0 <= j < i ==> !is_under(all, dir, j),
                Some((key, target)) => {
                    &&& 0 <= root < i
                    &&& is_longest_root(all.take(i as int), dir, root)
                    &&& key == byte_len(all[root].0)
                    &&& target@ == mapped_by(all, dir, root)
                },
            },
        decreases pairs@.len() - i,
    {
        let ghost before = all.take(i as int);
        let ghost now = all.take(i + 1);
        proof {
            assert forall|j: int| is_under(now, dir, j) && j < i implies is_under(before, dir, j)
                && before[j] == now[j] by {}
            assert forall|j: int| is_under(before, dir, j) implies is_under(now, dir, j)
                && before[j] == now[j] by {}
            if best is Some {
                assert(is_under(before, dir, root));
            }
            assert(now[i as int] == all[i as int]);
        }
        if let Some(rest) = path::strip_prefix(source_dir, pairs[i].0.as_str()) {
            assert(is_under(now, dir, i as int));
            let key: usize = pairs[i].0.as_str().as_bytes().len();
            let longer: bool = match &best {
                None => true,
                Some((best_key, _)) => *best_key <= key,
            };
            if longer {
                proof {
                    root = i as int;
                    assert forall|j: int| is_under(now, dir, j) implies byte_len(
                        #[trigger] now[j].0,
                    ) <= byte_len(now[i as int].0) by {
                        if j < i {
                            assert(is_under(before, dir, j));
                            assert(is_under(all, dir, j));
                        }
                    }
                    assert(is_longest_root(now, dir, i as int));
                }
                best = Some((key, path::join(pairs[i].1.as_str(), rest.as_str())));
            } else {
                assert(is_longest_root(now, dir, root));
            }
        } else {
            assert(!is_under(all, dir, i as int));
            assert(!is_under(now, dir, i as int));
            assert(best is Some ==> is_longest_root(now, dir, root));
        }
        i += 1;
    }
    proof {
        assert(all.take(i as int) =~= all);
        law_mapped_where_under_a_root(all, dir);
        if best is Some {
            law_longest_root_wins(all, dir, root);
        }
    }
    match best {
        Some((_, target)) => Some(target),
        None => None,
    }
}

/// A directory is mapped by the pair whose source root is the longest, in bytes of UTF-8, of
/// those whose components the directory begins with; of equally long ones, by the last. What
/// is left of the directory below the source root is joined to the build root.
pub proof fn law_mapped_by_the_longest_leading_root(
    pairs: Seq<(Seq<char>, Seq<char>)>,
    dir: Seq<char>,
    i: int,
)
    requires
        0 <= i < pairs.len(),
        path::components(pairs[i].0).is_prefix_of(path::components(dir)),
        forall|j: int|
            #![trigger pairs[j]]
            0 <= j < pairs.len() && path::components(pairs[j].0).is_prefix_of(
                path::components(dir),
            ) ==> {
                let (other, this) = (
                    vstd::utf8::encode_utf8(pairs[j].0).len(),
                    vstd::utf8::encode_utf8(pairs[i].0).len(),
                );
                other < this || other == this && j <= i
            },
    ensures
        path::stripped(dir, pairs[i].0) matches Some(rest) && mapped(pairs, dir) == Some(
            path::joined(pairs[i].1, rest),
        ),
{
    path::law_stripped_where_the_base_leads(dir, pairs[i].0);
    assert forall|j: int| #[trigger] is_under(pairs, dir, j) implies byte_len(pairs[j].0)
        <= byte_len(pairs[i].0) && (i < j ==> byte_len(pairs[j].0) < byte_len(pairs[i].0)) by {
        path::law_stripped_where_the_base_leads(dir, pairs[j].0);
    }
    assert(is_under(pairs, dir, i));
    law_longest_root_wins(pairs, dir, i);
}

/// A directory is not mapped if and only if it begins with the components of no source root.
pub proof fn law_unmapped_where_no_root_leads(
    pairs: Seq<(Seq<char>, Seq<char>)>,
    dir: Seq<char>,
)
    ensures
        mapped(pairs, dir) is None <==> forall|j: int|
            0 <= j < pairs.len() ==> !path::components((#[trigger] pairs[j]).0).is_prefix_of(
                path::components(dir),
            ),
{
    law_mapped_where_under_a_root(pairs, dir);
    assert forall|j: int| 0 <= j < pairs.len() implies (#[trigger] is_under(pairs, dir, j)
        <==> path::components(pairs[j].0).is_prefix_of(path::components(dir))) by {
        path::law_stripped_where_the_base_leads(dir, pairs[j].0);
    }
    if mapped(pairs, dir) is None {
        assert forall|j: int| 0 <= j < pairs.len() implies !path::components(
            (#[trigger] pairs[j]).0,
        ).is_prefix_of(path::components(dir)) by {
            assert(!is_under(pairs, dir, j));
        }
    }
}

/// The components of a mapped directory are those of the build root, and then those that
/// the directory has below the source root. An empty source root takes nothing away: below
/// it, an absolute directory stands for itself, and a leading `.` is lost.
pub proof fn law_mapped_components(
    pairs: Seq<(Seq<char>, Seq<char>)>,
    dir: Seq<char>,
    i: int,
)
    requires
        is_longest_root(pairs, dir, i),
        pairs[i].0.len() > 0 || pairs[i].1.len() == 0 || path::head_len(dir) == 0,
    ensures
        mapped(pairs, dir) is Some,
        path::components(mapped(pairs, dir)->0) == path::components(pairs[i].1)
            + path::components(dir).skip(path::components(pairs[i].0).len() as int),
{
    law_longest_root_wins(pairs, dir, i);
    let (source, build) = pairs[i];
    let rest = path::stripped(dir, source)->0;
    path::law_stripped_components(dir, source);
    if build.len() == 0 {
        assert(path::joined(build, rest) =~= rest);
        assert(path::body(build, 0, 0) =~= Seq::empty());
        assert(path::components(build) + path::components(rest) =~= path::components(rest));
    } else {
        path::law_joined_components(build, rest);
        assert(path::components(rest) =~= path::body(rest, 0, rest.len() as int));
    }
}

} // verus!
