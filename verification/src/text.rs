//! Character-level text helpers: trimming surrounding whitespace and
//! splitting remote command output into lines, as the registry logic needs
//! them.

use vstd::prelude::*;
use vstd::string::*;

verus! {

/// The characters treated as whitespace when trimming: the ASCII whitespace
/// characters.
pub open spec fn is_space(c: char) -> bool {
    c == ' ' || c == '\t' || c == '\n' || c == '\r' || c == '\u{b}' || c == '\u{c}'
}

/// `s` with its leading whitespace characters removed.
pub open spec fn drop_leading_spaces(s: Seq<char>) -> Seq<char>
    decreases s.len(),
{
    if s.len() > 0 && is_space(s[0]) {
        drop_leading_spaces(s.drop_first())
    } else {
        s
    }
}

/// `s` with its trailing whitespace characters removed.
pub open spec fn drop_trailing_spaces(s: Seq<char>) -> Seq<char>
    decreases s.len(),
{
    if s.len() > 0 && is_space(s.last()) {
        drop_trailing_spaces(s.drop_last())
    } else {
        s
    }
}

/// `s` with surrounding whitespace removed from both ends.
pub open spec fn trim_spec(s: Seq<char>) -> Seq<char> {
    drop_trailing_spaces(drop_leading_spaces(s))
}

/// The index of the first newline character in `s`, or `s.len()` if there is
/// none.
pub open spec fn first_newline(s: Seq<char>) -> int
    decreases s.len(),
{
    if s.len() == 0 {
        0
    } else if s[0] == '\n' {
        0
    } else {
        1 + first_newline(s.drop_first())
    }
}

/// `s` split at newline characters, one element per line.  A final newline
/// terminates the last line rather than opening an empty one, so an empty
/// input has no lines and `"a\n"` has exactly one.
pub open spec fn lines_spec(s: Seq<char>) -> Seq<Seq<char>>
    decreases s.len(),
    via lines_spec_decreases
{
    if s.len() == 0 {
        Seq::empty()
    } else {
        let i = first_newline(s);
        if i == s.len() {
            seq![s]
        } else {
            seq![s.subrange(0, i)] + lines_spec(s.skip(i + 1))
        }
    }
}

/// The lines of `s`, each trimmed of surrounding whitespace.
pub open spec fn trimmed_lines(s: Seq<char>) -> Seq<Seq<char>> {
    lines_spec(s).map_values(|l: Seq<char>| trim_spec(l))
}

#[via_fn]
proof fn lines_spec_decreases(s: Seq<char>) {
    lemma_first_newline_bounds(s);
}

proof fn lemma_first_newline_bounds(s: Seq<char>)
    ensures
        0 <= first_newline(s) <= s.len(),
        forall|k: int| 0 <= k < first_newline(s) ==> s[k] != '\n',
        first_newline(s) < s.len() ==> s[first_newline(s)] == '\n',
    decreases s.len(),
{
    if s.len() > 0 && s[0] != '\n' {
        lemma_first_newline_bounds(s.drop_first());
        assert forall|k: int| 0 <= k < first_newline(s) implies s[k] != '\n' by {
            if k > 0 {
                assert(s.drop_first()[k - 1] == s[k]);
            }
        }
    }
}

proof fn lemma_first_newline_at(s: Seq<char>, i: int)
    requires
        0 <= i <= s.len(),
        forall|k: int| 0 <= k < i ==> s[k] != '\n',
        i < s.len() ==> s[i] == '\n',
    ensures
        first_newline(s) == i,
    decreases s.len(),
{
    if s.len() > 0 && s[0] != '\n' {
        assert(i > 0);
        lemma_first_newline_at(s.drop_first(), i - 1);
    }
}

proof fn lemma_drop_leading_at(s: Seq<char>, i: int)
    requires
        0 <= i <= s.len(),
        forall|k: int| 0 <= k < i ==> is_space(s[k]),
        i < s.len() ==> !is_space(s[i]),
    ensures
        drop_leading_spaces(s) == s.skip(i),
    decreases s.len(),
{
    if i == 0 {
        assert(s.skip(0) =~= s);
    } else {
        assert(is_space(s[0]));
        lemma_drop_leading_at(s.drop_first(), i - 1);
        assert(s.drop_first().skip(i - 1) =~= s.skip(i));
    }
}

proof fn lemma_drop_trailing_at(s: Seq<char>, j: int)
    requires
        0 <= j <= s.len(),
        forall|k: int| j <= k < s.len() ==> is_space(s[k]),
        j > 0 ==> !is_space(s[j - 1]),
    ensures
        drop_trailing_spaces(s) == s.take(j),
    decreases s.len(),
{
    if j == s.len() {
        if s.len() > 0 && is_space(s.last()) {
            assert(!is_space(s[j - 1]));
            assert(false);
        }
        assert(s.take(j) =~= s);
    } else {
        assert(is_space(s.last()));
        lemma_drop_trailing_at(s.drop_last(), j);
        assert(s.drop_last().take(j) =~= s.take(j));
    }
}

fn is_space_char(c: char) -> (r: bool)
    ensures
        r == is_space(c),
{
    c == ' ' || c == '\t' || c == '\n' || c == '\r' || c == '\u{b}' || c == '\u{c}'
}

/// `s` with surrounding whitespace removed from both ends, as a fresh
/// `String`.
pub fn trim_str(s: &str) -> (r: String)
    ensures
        r@ == trim_spec(s@),
{
    let len = s.unicode_len();
    let mut start: usize = 0;
    while start < len && is_space_char(s.get_char(start))
        invariant
            start <= len,
            len == s@.len(),
            forall|k: int| 0 <= k < start ==> is_space(s@[k]),
        decreases len - start,
    {
        start += 1;
    }
    let mut end: usize = len;
    while end > start && is_space_char(s.get_char(end - 1))
        invariant
            start <= end <= len,
            len == s@.len(),
            forall|k: int| end <= k < len ==> is_space(s@[k]),
        decreases end,
    {
        end -= 1;
    }
    proof {
        lemma_drop_leading_at(s@, start as int);
        lemma_drop_trailing_at(s@.skip(start as int), end - start);
        assert(s@.skip(start as int).take(end - start) =~= s@.subrange(
            start as int,
            end as int,
        ));
    }
    String::from_str(s.substring_char(start, end))
}

fn find_newline(s: &str, from: usize) -> (r: usize)
    requires
        from <= s@.len(),
    ensures
        from <= r <= s@.len(),
        forall|k: int| from <= k < r ==> s@[k] != '\n',
        r < s@.len() ==> s@[r as int] == '\n',
{
    let len = s.unicode_len();
    let mut i = from;
    while i < len && s.get_char(i) != '\n'
        invariant
            from <= i <= len,
            len == s@.len(),
            forall|k: int| from <= k < i ==> s@[k] != '\n',
        decreases len - i,
    {
        i += 1;
    }
    i
}

/// The container names carried in the output of a remote listing command:
/// its lines, each trimmed of surrounding whitespace, in order.
pub fn container_names_from_output(out: &str) -> (r: Vec<String>)
    ensures
        r@.map_values(|x: String| x@) == trimmed_lines(out@),
{
    let len = out.unicode_len();
    let mut names: Vec<String> = Vec::new();
    let mut pos: usize = 0;
    proof {
        assert(out@.skip(0) =~= out@);
        assert(names@.map_values(|x: String| x@) + trimmed_lines(out@) =~= trimmed_lines(out@));
    }
    while pos < len
        invariant
            pos <= len,
            len == out@.len(),
            trimmed_lines(out@) == names@.map_values(|x: String| x@) + trimmed_lines(
                out@.skip(pos as int),
            ),
        decreases len - pos,
    {
        let ghost done_before = names@.map_values(|x: String| x@);
        let ghost p = pos as int;
        let ghost tail = out@.skip(p);
        let j = find_newline(out, pos);
        let line = trim_str(out.substring_char(pos, j));
        names.push(line);
        proof {
            lemma_first_newline_at(tail, j - p);
            assert(tail.subrange(0, j - p) =~= out@.subrange(p, j as int));
            assert(names@.map_values(|x: String| x@) =~= done_before.push(
                trim_spec(tail.subrange(0, j - p)),
            ));
        }
        if j == len {
            pos = len;
            proof {
                assert(lines_spec(tail) =~= seq![tail]);
                assert(tail.subrange(0, j - p) =~= tail);
                assert(trimmed_lines(tail) =~= seq![trim_spec(tail)]);
                assert(trimmed_lines(out@.skip(len as int)) =~= Seq::<Seq<char>>::empty());
                assert(trimmed_lines(out@) =~= names@.map_values(|x: String| x@)
                    + trimmed_lines(out@.skip(pos as int)));
            }
        } else {
            pos = j + 1;
            proof {
                assert(tail.skip((j - p) + 1) =~= out@.skip(pos as int));
                assert(trimmed_lines(tail) =~= seq![
                    trim_spec(tail.subrange(0, first_newline(tail))),
                ] + trimmed_lines(tail.skip(first_newline(tail) + 1)));
                assert(trimmed_lines(out@) =~= names@.map_values(|x: String| x@)
                    + trimmed_lines(out@.skip(pos as int)));
            }
        }
    }
    names
}

/// Appends one character to the end of `s`.
///
/// Relies on `String::push`: it appends the given character to the end of
/// the string.
#[verifier::external_body]
pub fn push_char(s: &mut String, c: char)
    ensures
        final(s)@ == old(s)@ + seq![c],
{
    s.push(c);
}

} // verus!
