//! Small verified text helpers shared by the modules.
use vstd::prelude::*;
use vstd::string::{StrSliceExecFns, StringSliceAdditionalSpecFns};
use vstd::utf8::{encode_utf8, encode_utf8_decode_utf8};

verus! {

/// Byte-wise equality of two slices.
pub fn bytes_eq(a: &[u8], b: &[u8]) -> (r: bool)
    ensures
        r == (a@ == b@),
{
    if a.len() != b.len() {
        return false;
    }
    let mut i: usize = 0;
    while i < a.len()
        invariant
            i <= a.len(),
            a.len() == b.len(),
            forall|j: int| 0 <= j < i ==> a@[j] == b@[j],
        decreases a.len() - i,
    {
        if a[i] != b[i] {
            return false;
        }
        i += 1;
    }
    proof {
        assert(a@ =~= b@);
    }
    true
}

/// Equality of two texts.
pub fn str_eq(a: &str, b: &str) -> (r: bool)
    ensures
        r == (a@ == b@),
{
    let r = bytes_eq(a.as_bytes(), b.as_bytes());
    proof {
        encode_utf8_decode_utf8(a@);
        encode_utf8_decode_utf8(b@);
    }
    r
}

/// `p` occurs in `b` at position `i`.
pub open spec fn occurs_at<A>(b: Seq<A>, p: Seq<A>, i: int) -> bool {
    0 <= i && i + p.len() <= b.len() && b.subrange(i, i + p.len() as int) == p
}

/// The first occurrence of `p` in `b` at or after position `from`.
pub open spec fn find_from<A>(b: Seq<A>, p: Seq<A>, from: int) -> Option<int>
    decreases b.len() + 1 - from,
{
    if from < 0 || from + p.len() > b.len() {
        None
    } else if occurs_at(b, p, from) {
        Some(from)
    } else {
        find_from(b, p, from + 1)
    }
}

/// The second piece of `b` split at a nonempty `p` (`str::split(p).nth(1)`):
/// what lies between the first occurrence and the next, or the end.
pub open spec fn second_piece<A>(b: Seq<A>, p: Seq<A>) -> Option<Seq<A>> {
    match find_from(b, p, 0) {
        None => None,
        Some(i) => {
            let start = i + p.len();
            match find_from(b, p, start) {
                None => Some(b.subrange(start, b.len() as int)),
                Some(j) => Some(b.subrange(start, j)),
            }
        },
    }
}

/// A match found from `from` lies at or after `from`, inside `b`.
pub proof fn lemma_find_from_range<A>(b: Seq<A>, p: Seq<A>, from: int)
    ensures
        find_from(b, p, from) matches Some(i) ==> from <= i && i + p.len() <= b.len() && occurs_at(b, p, i),
    decreases b.len() + 1 - from,
{
    if !(from < 0 || from + p.len() > b.len()) && !occurs_at(b, p, from) {
        lemma_find_from_range(b, p, from + 1);
    }
}

/// A character with the Unicode `White_Space` property, the whitespace of
/// `char::is_whitespace` and `str::trim`.
pub open spec fn is_white_space(c: char) -> bool {
    ||| '\u{9}' <= c <= '\u{d}'
    ||| c == ' '
    ||| c == '\u{85}'
    ||| c == '\u{a0}'
    ||| c == '\u{1680}'
    ||| '\u{2000}' <= c <= '\u{200a}'
    ||| c == '\u{2028}'
    ||| c == '\u{2029}'
    ||| c == '\u{202f}'
    ||| c == '\u{205f}'
    ||| c == '\u{3000}'
}

/// Whether `c` is Unicode whitespace.
pub fn white_space(c: char) -> (r: bool)
    ensures
        r == is_white_space(c),
{
    ('\u{9}' <= c && c <= '\u{d}') || c == ' ' || c == '\u{85}' || c == '\u{a0}' || c == '\u{1680}' || (
    '\u{2000}' <= c && c <= '\u{200a}') || c == '\u{2028}' || c == '\u{2029}' || c == '\u{202f}' || c
        == '\u{205f}' || c == '\u{3000}'
}

/// The text without its leading whitespace.
pub open spec fn trim_start(s: Seq<char>) -> Seq<char>
    decreases s.len(),
{
    if s.len() > 0 && is_white_space(s[0]) {
        trim_start(s.drop_first())
    } else {
        s
    }
}

/// The text without its trailing whitespace.
pub open spec fn trim_end(s: Seq<char>) -> Seq<char>
    decreases s.len(),
{
    if s.len() > 0 && is_white_space(s.last()) {
        trim_end(s.drop_last())
    } else {
        s
    }
}

/// `str::trim`: the text without leading and trailing whitespace.
pub open spec fn trim(s: Seq<char>) -> Seq<char> {
    trim_end(trim_start(s))
}

/// The first line of a text (`str::lines().next()`): nothing for an empty
/// text; else what comes before the first `\n`, without a `\r` right
/// before it, or the whole text when there is no `\n`.
pub open spec fn first_line(s: Seq<char>) -> Option<Seq<char>> {
    if s.len() == 0 {
        None
    } else {
        match find_from(s, seq!['\n'], 0) {
            None => Some(s),
            Some(i) => {
                let l = s.subrange(0, i);
                if l.len() > 0 && l.last() == '\r' {
                    Some(l.drop_last())
                } else {
                    Some(l)
                }
            },
        }
    }
}

/// `p` occurs in `s` at character `i`.
pub fn occurs_at_chars(s: &str, p: &str, i: usize) -> (r: bool)
    requires
        i + p@.len() <= s@.len(),
    ensures
        r == occurs_at(s@, p@, i as int),
{
    let n = s.unicode_len();
    let m = p.unicode_len();
    let mut k: usize = 0;
    while k < m
        invariant
            k <= m,
            m == p@.len(),
            n == s@.len(),
            i + p@.len() <= s@.len(),
            forall|t: int| 0 <= t < k ==> s@[i + t] == p@[t],
        decreases m - k,
    {
        if s.get_char(i + k) != p.get_char(k) {
            proof {
                assert(s@.subrange(i as int, i + p@.len() as int)[k as int] != p@[k as int]);
            }
            return false;
        }
        k += 1;
    }
    proof {
        assert(s@.subrange(i as int, i + p@.len() as int) =~= p@);
    }
    true
}

/// The first occurrence of `p` in `s` at or after character `from`.
pub fn find_chars(s: &str, p: &str, from: usize) -> (r: Option<usize>)
    ensures
        r matches Some(i) ==> find_from(s@, p@, from as int) == Some(i as int),
        r is None ==> find_from(s@, p@, from as int) is None,
{
    let n = s.unicode_len();
    let m = p.unicode_len();
    let mut i: usize = from;
    while i <= n && m <= n - i
        invariant
            from <= i,
            n == s@.len(),
            m == p@.len(),
            find_from(s@, p@, from as int) == find_from(s@, p@, i as int),
        decreases n + 1 - i,
    {
        if occurs_at_chars(s, p, i) {
            return Some(i);
        }
        proof {
            if m == 0 {
                assert(s@.subrange(i as int, i as int) =~= p@);
            }
        }
        i += 1;
    }
    None
}

/// The text with leading and trailing whitespace removed.
pub fn trim_text(s: &str) -> (r: String)
    ensures
        r@ == trim(s@),
{
    let n = s.unicode_len();
    let mut i: usize = 0;
    proof {
        assert(s@.subrange(0, n as int) =~= s@);
    }
    while i < n && white_space(s.get_char(i))
        invariant
            i <= n,
            n == s@.len(),
            trim_start(s@) == trim_start(s@.subrange(i as int, n as int)),
        decreases n - i,
    {
        proof {
            assert(s@.subrange(i as int, n as int).drop_first() =~= s@.subrange(i + 1, n as int));
        }
        i += 1;
    }
    proof {
        assert(trim_start(s@.subrange(i as int, n as int)) == s@.subrange(i as int, n as int));
    }
    let mut j: usize = n;
    while j > i && white_space(s.get_char(j - 1))
        invariant
            i <= j <= n,
            n == s@.len(),
            trim(s@) == trim_end(s@.subrange(i as int, j as int)),
        decreases j - i,
    {
        proof {
            assert(s@.subrange(i as int, j as int).drop_last() =~= s@.subrange(i as int, j - 1));
        }
        j -= 1;
    }
    String::from_str(s.substring_char(i, j))
}

/// A line without the `\r` of a `\r\n` ending.
pub open spec fn strip_cr(l: Seq<char>) -> Seq<char> {
    if l.len() > 0 && l.last() == '\r' {
        l.drop_last()
    } else {
        l
    }
}

/// The lines of `s` from character `start` on, as `str::lines` gives them:
/// split at each `\n`, a `\r` before it dropped, no line after a final `\n`.
pub open spec fn lines_from(s: Seq<char>, start: int) -> Seq<Seq<char>>
    decreases s.len() - start,
{
    if start < 0 || start >= s.len() {
        Seq::empty()
    } else {
        match find_from(s, seq!['\n'], start) {
            None => seq![s.subrange(start, s.len() as int)],
            Some(i) => if i < start || i >= s.len() {
                Seq::empty()
            } else {
                seq![strip_cr(s.subrange(start, i))] + lines_from(s, i + 1)
            },
        }
    }
}

/// The lines of `s`, as `str::lines` gives them.
pub open spec fn lines(s: Seq<char>) -> Seq<Seq<char>> {
    lines_from(s, 0)
}

/// `p` occurs somewhere in `s` (`str::contains`).
pub open spec fn contains_text(s: Seq<char>, p: Seq<char>) -> bool {
    find_from(s, p, 0) is Some
}

/// How many times `c` occurs in `s`.
pub open spec fn count_char(s: Seq<char>, c: char) -> nat
    decreases s.len(),
{
    if s.len() == 0 {
        0
    } else {
        count_char(s.drop_last(), c) + if s.last() == c {
            1nat
        } else {
            0nat
        }
    }
}

/// The text after the prefix `p` (`str::strip_prefix`).
pub open spec fn strip_prefix(s: Seq<char>, p: Seq<char>) -> Option<Seq<char>> {
    if p.len() <= s.len() && s.subrange(0, p.len() as int) == p {
        Some(s.subrange(p.len() as int, s.len() as int))
    } else {
        None
    }
}

/// The line of `s` that starts at character `start` and where the next
/// one starts; `start` must be inside `s`.
pub fn next_line<'a>(s: &'a str, start: usize) -> (r: (&'a str, usize))
    requires
        start < s@.len(),
    ensures
        lines_from(s@, start as int) == seq![r.0@] + lines_from(s@, r.1 as int),
        start < r.1 <= s@.len(),
{
    let n = s.unicode_len();
    let found = find_chars(s, "\n", start);
    proof {
        reveal_strlit("\n");
        assert("\n"@ =~= seq!['\n']);
        lemma_find_from_range(s@, seq!['\n'], start as int);
    }
    match found {
        None => {
            let line = s.substring_char(start, n);
            proof {
                assert(lines_from(s@, n as int) =~= Seq::<Seq<char>>::empty());
                assert(seq![line@] + lines_from(s@, n as int) =~= seq![line@]);
            }
            (line, n)
        },
        Some(i) => {
            let raw = s.substring_char(start, i);
            let len = raw.unicode_len();
            let line = if len > 0 && raw.get_char(len - 1) == '\r' {
                let l = raw.substring_char(0, len - 1);
                proof {
                    assert(l@ =~= raw@.drop_last());
                }
                l
            } else {
                raw
            };
            (line, i + 1)
        },
    }
}

/// How many times `c` occurs in `s`.
pub fn count_chars(s: &str, c: char) -> (r: usize)
    ensures
        r == count_char(s@, c),
{
    let n = s.unicode_len();
    let mut k: usize = 0;
    let mut count: usize = 0;
    while k < n
        invariant
            k <= n,
            n == s@.len(),
            count == count_char(s@.take(k as int), c),
            count <= k,
        decreases n - k,
    {
        proof {
            assert(s@.take(k as int + 1).drop_last() =~= s@.take(k as int));
        }
        if s.get_char(k) == c {
            count += 1;
        }
        k += 1;
    }
    proof {
        assert(s@.take(n as int) =~= s@);
    }
    count
}

/// The text after the prefix `p`, if `s` starts with it.
pub fn strip_prefix_text<'a>(s: &'a str, p: &str) -> (r: Option<&'a str>)
    ensures
        match strip_prefix(s@, p@) {
            None => r is None,
            Some(rest) => r matches Some(x) && x@ == rest,
        },
{
    let n = s.unicode_len();
    let m = p.unicode_len();
    if m <= n && occurs_at_chars(s, p, 0) {
        Some(s.substring_char(m, n))
    } else {
        None
    }
}

} // verus!
