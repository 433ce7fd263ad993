//! The text of FPP strings and the C++ names of component instances.

use crate::text::to_chars;
use vstd::prelude::*;

verus! {

/// `s` with its escapes removed: a backslash stands for the character after it, and a
/// backslash at the end for nothing.
pub open spec fn unescaped(s: Seq<char>) -> Seq<char>
    decreases s.len(),
{
    if s.len() == 0 {
        Seq::empty()
    } else if s[0] != '\\' {
        seq![s[0]] + unescaped(s.skip(1))
    } else if s.len() == 1 {
        Seq::empty()
    } else {
        seq![s[1]] + unescaped(s.skip(2))
    }
}

/// `s` with a backslash before each backslash and before each character that is picked.
pub open spec fn escaped(s: Seq<char>, picked: Seq<bool>) -> Seq<char>
    recommends
        picked.len() == s.len(),
    decreases s.len(),
{
    if s.len() == 0 {
        Seq::empty()
    } else if s[0] == '\\' || picked[0] {
        seq!['\\', s[0]] + escaped(s.skip(1), picked.skip(1))
    } else {
        seq![s[0]] + escaped(s.skip(1), picked.skip(1))
    }
}

/// Whether `s` ends in a backslash that has no character to stand for.
pub open spec fn ends_open(s: Seq<char>) -> bool
    decreases s.len(),
{
    if s.len() == 0 {
        false
    } else if s[0] != '\\' {
        ends_open(s.skip(1))
    } else if s.len() == 1 {
        true
    } else {
        ends_open(s.skip(2))
    }
}

/// A text without a backslash is unescaped to itself.
pub proof fn law_plain_text_is_kept(s: Seq<char>)
    requires
        !s.contains('\\'),
    ensures
        unescaped(s) == s,
    decreases s.len(),
{
    if s.len() > 0 {
        assert(s[0] != '\\');
        assert forall|c: char| s.skip(1).contains(c) implies s.contains(c) by {
            let i = choose|i: int| 0 <= i < s.skip(1).len() && s.skip(1)[i] == c;
            assert(s[i + 1] == c);
        }
        law_plain_text_is_kept(s.skip(1));
        assert(seq![s[0]] + s.skip(1) =~= s);
    } else {
        assert(s =~= Seq::empty());
    }
}

/// Unescaping gives back what was escaped, whichever characters were escaped besides the
/// backslashes.
pub proof fn law_unescaping_undoes_escaping(s: Seq<char>, picked: Seq<bool>)
    requires
        picked.len() == s.len(),
    ensures
        unescaped(escaped(s, picked)) == s,
    decreases s.len(),
{
    if s.len() > 0 {
        law_unescaping_undoes_escaping(s.skip(1), picked.skip(1));
        let rest = escaped(s.skip(1), picked.skip(1));
        if s[0] == '\\' || picked[0] {
            assert(escaped(s, picked).skip(2) =~= rest);
        } else {
            assert(escaped(s, picked).skip(1) =~= rest);
        }
        assert(seq![s[0]] + s.skip(1) =~= s);
    } else {
        assert(s =~= Seq::empty());
    }
}

/// A text is unescaped from the left: a backslash goes and the character after it stays,
/// whatever it is; any other character stays; a backslash with nothing after it goes.
pub proof fn law_unescaping_reads_from_the_left(c: char, s: Seq<char>)
    ensures
        unescaped(Seq::empty()) == Seq::<char>::empty(),
        unescaped(seq!['\\']) == Seq::<char>::empty(),
        unescaped(seq!['\\', c] + s) == seq![c] + unescaped(s),
        c != '\\' ==> unescaped(seq![c] + s) == seq![c] + unescaped(s),
{
    assert((seq!['\\', c] + s).skip(2) =~= s);
    assert((seq![c] + s).skip(1) =~= s);
}

/// A text is escaped character by character: each backslash and each picked character gets one
/// backslash in front, and the others stay as they are.
pub proof fn law_escaping_goes_by_character(c: char, pick: bool, s: Seq<char>, picked: Seq<bool>)
    requires
        picked.len() == s.len(),
    ensures
        escaped(Seq::empty(), Seq::empty()) == Seq::<char>::empty(),
        escaped(seq![c] + s, seq![pick] + picked) == (if c == '\\' || pick {
            seq!['\\', c]
        } else {
            seq![c]
        }) + escaped(s, picked),
{
    assert((seq![c] + s).skip(1) =~= s);
    assert((seq![pick] + picked).skip(1) =~= picked);
}

/// A text is unescaped part by part. Where the first part ends in a backslash that has no
/// character to stand for, the backslash stands for the first character of the second.
pub proof fn law_unescaping_goes_part_by_part(a: Seq<char>, b: Seq<char>)
    ensures
        unescaped(a + b) == unescaped(a) + (if ends_open(a) && b.len() > 0 {
            seq![b[0]] + unescaped(b.skip(1))
        } else {
            unescaped(b)
        }),
    decreases a.len(),
{
    let whole = a + b;
    let after = if ends_open(a) && b.len() > 0 {
        seq![b[0]] + unescaped(b.skip(1))
    } else {
        unescaped(b)
    };
    if a.len() == 0 {
        assert(whole =~= b);
        assert(unescaped(a) + after =~= after);
    } else if a[0] != '\\' {
        law_unescaping_goes_part_by_part(a.skip(1), b);
        assert(whole.skip(1) =~= a.skip(1) + b);
        assert(unescaped(whole) =~= unescaped(a) + after);
    } else if a.len() == 1 {
        if b.len() == 0 {
            assert(whole =~= a);
            assert(unescaped(b) =~= Seq::empty());
        } else {
            assert(whole[1] == b[0]);
            assert(whole.skip(2) =~= b.skip(1));
        }
        assert(unescaped(whole) =~= unescaped(a) + after);
    } else {
        law_unescaping_goes_part_by_part(a.skip(2), b);
        assert(whole.skip(2) =~= a.skip(2) + b);
        assert(unescaped(whole) =~= unescaped(a) + after);
    }
}

/// Unescaping a text never makes it longer.
pub proof fn law_unescaping_shortens(s: Seq<char>)
    ensures
        unescaped(s).len() <= s.len(),
    decreases s.len(),
{
    if s.len() > 0 {
        law_unescaping_shortens(s.skip(1));
        if s.len() > 1 {
            law_unescaping_shortens(s.skip(2));
        }
    }
}

/// Remove FPP string escapes (`\x` -> `x`), as the compiler's lexer does.
pub fn unescape(s: &str) -> (r: String)
    ensures
        r@ == unescaped(s@),
{
    let chars: Vec<char> = to_chars(s);
    let len: usize = chars.len();
    let mut r: String = String::new();
    let mut i: usize = 0;
    assert(chars@.skip(0) =~= chars@);
    while i < len
        invariant
            i <= len == chars@.len(),
            chars@ == s@,
            unescaped(s@) == r@ + unescaped(chars@.skip(i as int)),
        decreases len - i,
    {
        let ghost rest = chars@.skip(i as int);
        let ghost done = r@;
        if chars[i] != '\\' {
            r.push(chars[i]);
            i += 1;
            assert(rest.skip(1) =~= chars@.skip(i as int));
            assert(done + (seq![rest[0]] + unescaped(rest.skip(1))) =~= r@ + unescaped(
                rest.skip(1),
            ));
        } else if len - i == 1 {
            i = len;
            assert(chars@.skip(len as int) =~= Seq::empty());
        } else {
            r.push(chars[i + 1]);
            i += 2;
            assert(rest.skip(2) =~= chars@.skip(i as int));
            assert(done + (seq![rest[1]] + unescaped(rest.skip(2))) =~= r@ + unescaped(
                rest.skip(2),
            ));
        }
    }
    assert(unescaped(chars@.skip(len as int)) =~= Seq::empty());
    r
}

/// The character that stands for `c` in a C++ name.
pub open spec fn cpp_char(c: char) -> char {
    if c == '.' {
        '_'
    } else {
        c
    }
}

/// The C++ identifier of a qualified name.
pub open spec fn cpp_name(qualified_name: Seq<char>) -> Seq<char> {
    Seq::new(qualified_name.len(), |i: int| cpp_char(qualified_name[i]))
}

/// A C++ name has an underscore wherever the qualified name has a dot, and is the same
/// everywhere else.
pub proof fn law_cpp_name_replaces_dots(qualified_name: Seq<char>)
    ensures
        cpp_name(qualified_name).len() == qualified_name.len(),
        forall|i: int|
            0 <= i < qualified_name.len() ==> #[trigger] cpp_name(qualified_name)[i] == (
            if qualified_name[i] == '.' {
                '_'
            } else {
                qualified_name[i]
            }),
{
}

/// A C++ name holds no dot.
pub proof fn law_cpp_name_has_no_dot(qualified_name: Seq<char>)
    ensures
        !cpp_name(qualified_name).contains('.'),
{
}

/// Two qualified names have the same C++ name if and only if they differ in nothing but dots
/// and underscores.
pub proof fn law_cpp_names_tell_all_but_dots_and_underscores(a: Seq<char>, b: Seq<char>)
    ensures
        cpp_name(a) == cpp_name(b) <==> {
            &&& a.len() == b.len()
            &&& forall|i: int|
                0 <= i < a.len() ==> #[trigger] a[i] == b[i] || (a[i] == '.' || a[i] == '_') && (
                b[i] == '.' || b[i] == '_')
        },
{
    if cpp_name(a) == cpp_name(b) {
        assert(cpp_name(a).len() == a.len() && cpp_name(b).len() == b.len());
        assert forall|i: int| 0 <= i < a.len() implies #[trigger] a[i] == b[i] || (a[i] == '.'
            || a[i] == '_') && (b[i] == '.' || b[i] == '_') by {
            assert(cpp_name(a)[i] == cpp_char(a[i]));
            assert(cpp_name(b)[i] == cpp_char(b[i]));
        }
    }
    if a.len() == b.len() && (forall|i: int|
        0 <= i < a.len() ==> #[trigger] a[i] == b[i] || (a[i] == '.' || a[i] == '_') && (b[i] == '.'
            || b[i] == '_')) {
        assert forall|i: int| 0 <= i < a.len() implies cpp_name(a)[i] == cpp_name(b)[i] by {
            assert(a[i] == b[i] || (a[i] == '.' || a[i] == '_') && (b[i] == '.' || b[i] == '_'));
        }
        assert(cpp_name(a) =~= cpp_name(b));
    }
}

/// The C++ identifier an instance has in the `ConfigConstants` and `ConfigObjects`
/// namespaces: the qualified name with `.` replaced by `_`.
pub fn instance_cpp_name(qualified_name: &str) -> (r: String)
    ensures
        r@ == cpp_name(qualified_name@),
{
    let chars: Vec<char> = to_chars(qualified_name);
    let mut r: String = String::new();
    let mut i: usize = 0;
    while i < chars.len()
        invariant
            i <= chars@.len(),
            chars@ == qualified_name@,
            r@ == cpp_name(qualified_name@).take(i as int),
        decreases chars@.len() - i,
    {
        let c: char = if chars[i] == '.' {
            '_'
        } else {
            chars[i]
        };
        r.push(c);
        i += 1;
        assert(cpp_name(qualified_name@).take(i as int) =~= cpp_name(qualified_name@).take(
            i - 1,
        ).push(c));
    }
    assert(cpp_name(qualified_name@).take(i as int) =~= cpp_name(qualified_name@));
    r
}

} // verus!
