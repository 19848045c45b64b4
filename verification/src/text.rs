//! Verified text helpers: character search, splitting into lines, splitting
//! at a separator, character replacement, and string equality, shared by the
//! segmenter, the renderers and the index-body parser.

use vstd::prelude::*;

verus! {

/// Index of the first occurrence of `c` in `s`, or -1 when `c` does not occur.
pub open spec fn spec_find(s: Seq<char>, c: char) -> int
    decreases s.len(),
{
    if s.len() == 0 {
        -1
    } else if s[0] == c {
        0
    } else {
        let r = spec_find(s.drop_first(), c);
        if r == -1 {
            -1
        } else {
            r + 1
        }
    }
}

/// `spec_find` returns -1 exactly when `c` does not occur; otherwise it
/// returns the least index holding `c`.
pub proof fn lemma_spec_find(s: Seq<char>, c: char)
    ensures
        spec_find(s, c) == -1 <==> (forall|j: int| 0 <= j < s.len() ==> s[j] != c),
        spec_find(s, c) != -1 ==> 0 <= spec_find(s, c) < s.len() && s[spec_find(s, c)] == c && (
        forall|j: int| 0 <= j < spec_find(s, c) ==> s[j] != c),
    decreases s.len(),
{
    if s.len() == 0 {
    } else if s[0] == c {
    } else {
        let t = s.drop_first();
        lemma_spec_find(t, c);
        if spec_find(t, c) == -1 {
            assert forall|j: int| 0 <= j < s.len() implies s[j] != c by {
                if j > 0 {
                    assert(t[j - 1] == s[j]);
                }
            }
        } else {
            assert(s[spec_find(s, c)] == t[spec_find(t, c)]);
            assert forall|j: int| 0 <= j < spec_find(s, c) implies s[j] != c by {
                if j > 0 {
                    assert(t[j - 1] == s[j]);
                }
            }
        }
    }
}

/// Finds the first occurrence of `c` in `s`, returning its character index.
pub fn find_char(s: &str, c: char) -> (r: Option<usize>)
    ensures
        match r {
            Some(i) => spec_find(s@, c) == i as int,
            None => spec_find(s@, c) == -1,
        },
{
    proof {
        lemma_spec_find(s@, c);
    }
    let n = s.unicode_len();
    let mut i: usize = 0;
    while i < n
        invariant
            n == s@.len(),
            0 <= i <= n,
            forall|j: int| 0 <= j < i ==> s@[j] != c,
        decreases n - i,
    {
        if s.get_char(i) == c {
            proof {
                lemma_spec_find(s@, c);
            }
            return Some(i);
        }
        i += 1;
    }
    None
}

/// Whether the character sequences of `a` and `b` are equal.
pub fn str_eq(a: &str, b: &str) -> (r: bool)
    ensures
        r == (a@ == b@),
{
    let na = a.unicode_len();
    let nb = b.unicode_len();
    if na != nb {
        return false;
    }
    let mut i: usize = 0;
    while i < na
        invariant
            na == a@.len(),
            na == b@.len(),
            0 <= i <= na,
            forall|j: int| 0 <= j < i ==> a@[j] == b@[j],
        decreases na - i,
    {
        if a.get_char(i) != b.get_char(i) {
            return false;
        }
        i += 1;
    }
    proof {
        assert(a@ =~= b@);
    }
    true
}

/// Relies on `String::push`: appends the given character to the end of the
/// string.
#[verifier::external_body]
pub fn push_char(s: &mut String, c: char)
    ensures
        final(s)@ == old(s)@.push(c),
{
    s.push(c);
}

/// `s` with every occurrence of `from` replaced by `to`.
pub open spec fn spec_replace(s: Seq<char>, from: char, to: char) -> Seq<char> {
    s.map_values(
        |c: char|
            if c == from {
                to
            } else {
                c
            },
    )
}

/// Replaces every occurrence of `from` in `s` by `to`.
pub fn replace_char(s: &str, from: char, to: char) -> (r: String)
    ensures
        r@ == spec_replace(s@, from, to),
{
    let n = s.unicode_len();
    let mut out = String::new();
    let mut i: usize = 0;
    while i < n
        invariant
            n == s@.len(),
            0 <= i <= n,
            out@ == spec_replace(s@.take(i as int), from, to),
        decreases n - i,
    {
        let c = s.get_char(i);
        if c == from {
            push_char(&mut out, to);
        } else {
            push_char(&mut out, c);
        }
        proof {
            assert(spec_replace(s@.take(i + 1), from, to) =~= spec_replace(
                s@.take(i as int),
                from,
                to,
            ).push(
                if s@[i as int] == from {
                    to
                } else {
                    s@[i as int]
                },
            ));
        }
        i += 1;
    }
    proof {
        assert(s@.take(n as int) =~= s@);
    }
    out
}

/// A line with a single trailing carriage return removed, as completing it
/// at a newline strips a `\r\n` ending down to the line's text.
pub open spec fn strip_cr(s: Seq<char>) -> Seq<char> {
    if s.len() > 0 && s.last() == '\r' {
        s.drop_last()
    } else {
        s
    }
}

/// Folds the characters of `s` into completed lines and a current line:
/// a newline completes the current line (dropping one carriage return just
/// before it, so `\r\n` ends a line too), every other character extends it.
pub open spec fn lines_rec(s: Seq<char>) -> (Seq<Seq<char>>, Seq<char>)
    decreases s.len(),
{
    if s.len() == 0 {
        (Seq::empty(), Seq::empty())
    } else {
        let (ls, cur) = lines_rec(s.drop_last());
        if s.last() == '\n' {
            (ls.push(strip_cr(cur)), Seq::empty())
        } else {
            (ls, cur.push(s.last()))
        }
    }
}

/// The lines of `s`: the segments between `\n` or `\r\n` line endings, a
/// trailing segment included only when it is non-empty (so a final line
/// ending adds no line, and a trailing segment keeps any `\r` of its own).
pub open spec fn spec_lines(s: Seq<char>) -> Seq<Seq<char>> {
    let (ls, cur) = lines_rec(s);
    if cur.len() == 0 {
        ls
    } else {
        ls.push(cur)
    }
}

/// Splits `s` into its lines.
pub fn split_lines(s: &str) -> (r: Vec<String>)
    ensures
        r@.map_values(|l: String| l@) == spec_lines(s@),
{
    let n = s.unicode_len();
    let mut lines: Vec<String> = Vec::new();
    let mut cur = String::new();
    let mut i: usize = 0;
    while i < n
        invariant
            n == s@.len(),
            0 <= i <= n,
            (lines@.map_values(|l: String| l@), cur@) == lines_rec(s@.take(i as int)),
        decreases n - i,
    {
        let c = s.get_char(i);
        proof {
            assert(s@.take(i + 1).drop_last() =~= s@.take(i as int));
            assert(s@.take(i + 1).last() == s@[i as int]);
        }
        if c == '\n' {
            let m = cur.unicode_len();
            if m > 0 && cur.as_str().get_char(m - 1) == '\r' {
                let stripped = cur.as_str().substring_char(0, m - 1).to_owned();
                proof {
                    assert(stripped@ =~= strip_cr(cur@));
                }
                lines.push(stripped);
            } else {
                lines.push(cur);
            }
            cur = String::new();
        } else {
            push_char(&mut cur, c);
        }
        proof {
            assert(lines@.map_values(|l: String| l@) =~= lines_rec(s@.take(i + 1)).0);
        }
        i += 1;
    }
    proof {
        assert(s@.take(n as int) =~= s@);
    }
    if cur.unicode_len() > 0 {
        lines.push(cur);
        proof {
            assert(lines@.map_values(|l: String| l@) =~= spec_lines(s@));
        }
    }
    lines
}

/// The split of `line` at the first occurrence of `c`: the part before it
/// and the part after it, or nothing when `c` does not occur.
pub open spec fn spec_split_once(line: Seq<char>, c: char) -> Option<(Seq<char>, Seq<char>)> {
    let i = spec_find(line, c);
    if i == -1 {
        None
    } else {
        Some((line.take(i), line.skip(i + 1)))
    }
}

/// Splits `line` at the first occurrence of `c`.
pub fn split_once_char(line: &str, c: char) -> (r: Option<(String, String)>)
    ensures
        match r {
            Some(p) => spec_split_once(line@, c) == Some((p.0@, p.1@)),
            None => spec_split_once(line@, c) is None,
        },
{
    proof {
        lemma_spec_find(line@, c);
    }
    match find_char(line, c) {
        None => None,
        Some(i) => {
            let n = line.unicode_len();
            let before = line.substring_char(0, i);
            let after = line.substring_char(i + 1, n);
            proof {
                assert(before@ =~= line@.take(i as int));
                assert(after@ =~= line@.skip(i + 1));
            }
            Some((before.to_owned(), after.to_owned()))
        },
    }
}

/// The prefix of `s` before the first occurrence of `c`, or all of `s`
/// when `c` does not occur.
pub open spec fn spec_prefix_before(s: Seq<char>, c: char) -> Seq<char> {
    let i = spec_find(s, c);
    if i == -1 {
        s
    } else {
        s.take(i)
    }
}

/// The prefix of `s` before the first occurrence of `c`, or all of `s`.
pub fn prefix_before(s: &str, c: char) -> (r: String)
    ensures
        r@ == spec_prefix_before(s@, c),
{
    proof {
        lemma_spec_find(s@, c);
    }
    match find_char(s, c) {
        None => s.to_owned(),
        Some(i) => {
            let before = s.substring_char(0, i);
            proof {
                assert(before@ =~= s@.take(i as int));
            }
            before.to_owned()
        },
    }
}

} // verus!
