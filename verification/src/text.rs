//! Character-level text utilities.
//!
//! Configuration lines, paths and command arguments are manipulated as
//! `Vec<char>`, whose view is the same `Seq<char>` that `String` and
//! `&str` carry, so every contract in the crate can speak one language.

use vstd::prelude::*;
use vstd::string::StrSliceExecFns;

verus! {

/// Relies on std's `String::push`: appends exactly the one character at
/// the end of the string.
#[verifier::external_body]
pub(crate) fn push_char(s: &mut String, c: char)
    ensures
        final(s)@ == old(s)@.push(c),
{
    s.push(c);
}

/// The characters this crate treats as whitespace: the ASCII blanks that
/// appear in configuration files and tool output.
pub open spec fn is_space(c: char) -> bool {
    c == ' ' || c == '\t' || c == '\r' || c == '\n'
}

/// Executable twin of [`is_space`].
pub fn is_space_char(c: char) -> (r: bool)
    ensures
        r == is_space(c),
{
    c == ' ' || c == '\t' || c == '\r' || c == '\n'
}

/// The characters of a string slice, in order.
pub fn to_chars(s: &str) -> (r: Vec<char>)
    ensures
        r@ == s@,
{
    let n = s.unicode_len();
    let mut r: Vec<char> = Vec::new();
    let mut i: usize = 0;
    while i < n
        invariant
            i <= n,
            n == s@.len(),
            r@ == s@.subrange(0, i as int),
        decreases n - i,
    {
        r.push(s.get_char(i));
        assert(r@ =~= s@.subrange(0, i + 1));
        i = i + 1;
    }
    assert(r@ =~= s@);
    r
}

/// A `String` with exactly the given characters.
pub fn chars_to_string(v: &Vec<char>) -> (r: String)
    ensures
        r@ == v@,
{
    let mut r = String::new();
    let mut i: usize = 0;
    while i < v.len()
        invariant
            i <= v@.len(),
            r@ == v@.subrange(0, i as int),
        decreases v@.len() - i,
    {
        push_char(&mut r, v[i]);
        assert(r@ =~= v@.subrange(0, i + 1));
        i = i + 1;
    }
    assert(r@ =~= v@);
    r
}

/// A copy of the characters of `v` between `lo` (inclusive) and `hi`
/// (exclusive).
pub fn subvec(v: &Vec<char>, lo: usize, hi: usize) -> (r: Vec<char>)
    requires
        lo <= hi <= v@.len(),
    ensures
        r@ == v@.subrange(lo as int, hi as int),
{
    let mut r: Vec<char> = Vec::new();
    let mut i: usize = lo;
    while i < hi
        invariant
            lo <= i <= hi <= v@.len(),
            r@ == v@.subrange(lo as int, i as int),
        decreases hi - i,
    {
        r.push(v[i]);
        assert(r@ =~= v@.subrange(lo as int, i + 1));
        i = i + 1;
    }
    r
}

/// What is left of `s` after dropping leading whitespace.
pub open spec fn trim_start_spec(s: Seq<char>) -> Seq<char>
    decreases s.len(),
{
    if s.len() == 0 {
        s
    } else if is_space(s[0]) {
        trim_start_spec(s.drop_first())
    } else {
        s
    }
}

/// What is left of `s` after dropping trailing whitespace.
pub open spec fn trim_end_spec(s: Seq<char>) -> Seq<char>
    decreases s.len(),
{
    if s.len() == 0 {
        s
    } else if is_space(s[s.len() - 1]) {
        trim_end_spec(s.drop_last())
    } else {
        s
    }
}

/// What is left of `s` after dropping whitespace at both ends.
pub open spec fn trim_spec(s: Seq<char>) -> Seq<char> {
    trim_end_spec(trim_start_spec(s))
}

/// The characters of `v` with whitespace removed from both ends.
pub fn trim_chars(v: &Vec<char>) -> (r: Vec<char>)
    ensures
        r@ == trim_spec(v@),
{
    let mut lo: usize = 0;
    assert(v@.skip(0) =~= v@);
    while lo < v.len() && is_space_char(v[lo])
        invariant
            lo <= v@.len(),
            trim_start_spec(v@) == trim_start_spec(v@.skip(lo as int)),
        decreases v@.len() - lo,
    {
        assert(v@.skip(lo as int).drop_first() =~= v@.skip(lo as int + 1));
        lo = lo + 1;
    }
    assert(trim_start_spec(v@) == v@.skip(lo as int));
    let mut hi: usize = v.len();
    while hi > lo && is_space_char(v[hi - 1])
        invariant
            lo <= hi <= v@.len(),
            trim_end_spec(v@.skip(lo as int)) == trim_end_spec(v@.subrange(lo as int, hi as int)),
        decreases hi,
    {
        assert(v@.subrange(lo as int, hi as int).drop_last() =~= v@.subrange(
            lo as int,
            hi as int - 1,
        ));
        hi = hi - 1;
    }
    assert(trim_end_spec(v@.skip(lo as int)) == v@.subrange(lo as int, hi as int));
    subvec(v, lo, hi)
}

/// `p` is a prefix of `s`.
pub open spec fn starts_with_spec(s: Seq<char>, p: Seq<char>) -> bool {
    p.len() <= s.len() && s.subrange(0, p.len() as int) == p
}

/// `p` is a suffix of `s`.
pub open spec fn ends_with_spec(s: Seq<char>, p: Seq<char>) -> bool {
    p.len() <= s.len() && s.subrange(s.len() - p.len(), s.len() as int) == p
}

/// Whether `p` is a prefix of `v`.
pub fn starts_with_chars(v: &Vec<char>, p: &Vec<char>) -> (r: bool)
    ensures
        r == starts_with_spec(v@, p@),
{
    if p.len() > v.len() {
        return false;
    }
    let mut i: usize = 0;
    while i < p.len()
        invariant
            i <= p@.len() <= v@.len(),
            forall|j: int| 0 <= j < i ==> v@[j] == p@[j],
        decreases p@.len() - i,
    {
        if v[i] != p[i] {
            assert(v@.subrange(0, p@.len() as int)[i as int] != p@[i as int]);
            return false;
        }
        i = i + 1;
    }
    assert(v@.subrange(0, p@.len() as int) =~= p@);
    true
}

/// Whether `p` is a suffix of `v`.
pub fn ends_with_chars(v: &Vec<char>, p: &Vec<char>) -> (r: bool)
    ensures
        r == ends_with_spec(v@, p@),
{
    if p.len() > v.len() {
        return false;
    }
    let off: usize = v.len() - p.len();
    let mut i: usize = 0;
    while i < p.len()
        invariant
            i <= p@.len() <= v@.len() <= usize::MAX,
            off == v@.len() - p@.len(),
            forall|j: int| 0 <= j < i ==> v@[off + j] == p@[j],
        decreases p@.len() - i,
    {
        if v[off + i] != p[i] {
            assert(v@.subrange(v@.len() - p@.len(), v@.len() as int)[i as int] != p@[i as int]);
            return false;
        }
        i = i + 1;
    }
    assert(v@.subrange(v@.len() - p@.len(), v@.len() as int) =~= p@);
    true
}

/// Whether the two character vectors hold the same characters.
pub fn chars_eq(a: &Vec<char>, b: &Vec<char>) -> (r: bool)
    ensures
        r == (a@ == b@),
{
    if a.len() != b.len() {
        return false;
    }
    let mut i: usize = 0;
    while i < a.len()
        invariant
            i <= a@.len(),
            a@.len() == b@.len(),
            forall|j: int| 0 <= j < i ==> a@[j] == b@[j],
        decreases a@.len() - i,
    {
        if a[i] != b[i] {
            return false;
        }
        i = i + 1;
    }
    assert(a@ =~= b@);
    true
}

/// Length of the maximal non-whitespace prefix of `s`.
pub open spec fn token_end(s: Seq<char>) -> nat
    decreases s.len(),
{
    if s.len() == 0 {
        0
    } else if is_space(s[0]) {
        0
    } else {
        1 + token_end(s.drop_first())
    }
}

pub proof fn lemma_token_end_bounds(s: Seq<char>)
    ensures
        token_end(s) <= s.len(),
        s.len() > 0 && !is_space(s[0]) ==> 1 <= token_end(s),
    decreases s.len(),
{
    if s.len() > 0 && !is_space(s[0]) {
        lemma_token_end_bounds(s.drop_first());
    }
}

/// The whitespace-separated tokens of `s`, in order.
pub open spec fn split_ws_spec(s: Seq<char>) -> Seq<Seq<char>>
    decreases s.len(),
    via split_ws_spec_dec
{
    if s.len() == 0 {
        Seq::empty()
    } else if is_space(s[0]) {
        split_ws_spec(s.drop_first())
    } else {
        seq![s.subrange(0, token_end(s) as int)] + split_ws_spec(s.skip(token_end(s) as int))
    }
}

#[via_fn]
proof fn split_ws_spec_dec(s: Seq<char>) {
    lemma_token_end_bounds(s);
}

/// The whitespace-separated tokens of `v`, in order.
pub fn split_ws_chars(v: &Vec<char>) -> (r: Vec<Vec<char>>)
    ensures
        r.deep_view() == split_ws_spec(v@),
{
    let mut r: Vec<Vec<char>> = Vec::new();
    let mut i: usize = 0;
    assert(v@.skip(0) =~= v@);
    while i < v.len()
        invariant
            i <= v@.len(),
            split_ws_spec(v@) =~~= r.deep_view() + split_ws_spec(v@.skip(i as int)),
        decreases v@.len() - i,
    {
        if is_space_char(v[i]) {
            assert(v@.skip(i as int).drop_first() =~= v@.skip(i as int + 1));
            i = i + 1;
        } else {
            let start: usize = i;
            let mut j: usize = i;
            while j < v.len() && !is_space_char(v[j])
                invariant
                    start <= j <= v@.len(),
                    token_end(v@.skip(start as int)) == j - start + token_end(v@.skip(j as int)),
                decreases v@.len() - j,
            {
                assert(v@.skip(j as int).drop_first() =~= v@.skip(j as int + 1));
                j = j + 1;
            }
            proof {
                lemma_token_end_bounds(v@.skip(start as int));
            }
            assert(token_end(v@.skip(start as int)) == j - start);
            let token = subvec(v, start, j);
            assert(token@ =~= v@.skip(start as int).subrange(
                0,
                token_end(v@.skip(start as int)) as int,
            ));
            assert(v@.skip(start as int).skip(token_end(v@.skip(start as int)) as int) =~= v@.skip(
                j as int,
            ));
            let ghost old_r = r.deep_view();
            r.push(token);
            assert(r.deep_view() =~~= old_r.push(token@));
            assert(split_ws_spec(v@) =~~= r.deep_view() + split_ws_spec(v@.skip(j as int)));
            i = j;
        }
    }
    assert(split_ws_spec(v@) =~~= r.deep_view());
    r
}

/// `s` with every trailing occurrence of `c` removed.
pub open spec fn strip_trailing_spec(s: Seq<char>, c: char) -> Seq<char>
    decreases s.len(),
{
    if s.len() > 0 && s[s.len() - 1] == c {
        strip_trailing_spec(s.drop_last(), c)
    } else {
        s
    }
}

/// `v` with every trailing occurrence of `c` removed.
pub fn strip_trailing_chars(v: &Vec<char>, c: char) -> (r: Vec<char>)
    ensures
        r@ == strip_trailing_spec(v@, c),
{
    let mut hi: usize = v.len();
    assert(v@.subrange(0, v@.len() as int) =~= v@);
    while hi > 0 && v[hi - 1] == c
        invariant
            hi <= v@.len(),
            strip_trailing_spec(v@, c) == strip_trailing_spec(v@.subrange(0, hi as int), c),
        decreases hi,
    {
        assert(v@.subrange(0, hi as int).drop_last() =~= v@.subrange(0, hi as int - 1));
        hi = hi - 1;
    }
    subvec(v, 0, hi)
}

/// `s` with every trailing occurrence of the suffix `suf` removed.
pub open spec fn strip_suffix_rep_spec(s: Seq<char>, suf: Seq<char>) -> Seq<char>
    decreases s.len(),
{
    if suf.len() > 0 && ends_with_spec(s, suf) {
        strip_suffix_rep_spec(s.subrange(0, s.len() - suf.len()), suf)
    } else {
        s
    }
}

/// `v` with every trailing occurrence of the suffix `suf` removed.
pub fn strip_suffix_rep_chars(v: &Vec<char>, suf: &Vec<char>) -> (r: Vec<char>)
    ensures
        r@ == strip_suffix_rep_spec(v@, suf@),
{
    let mut cur = subvec(v, 0, v.len());
    assert(cur@ =~= v@);
    while suf.len() > 0 && ends_with_chars(&cur, suf)
        invariant
            strip_suffix_rep_spec(v@, suf@) == strip_suffix_rep_spec(cur@, suf@),
        decreases cur@.len(),
    {
        let next = subvec(&cur, 0, cur.len() - suf.len());
        cur = next;
    }
    cur
}

/// `p` occurs in `s` starting at index `i`.
pub open spec fn contains_at(s: Seq<char>, p: Seq<char>, i: int) -> bool {
    0 <= i && i + p.len() <= s.len() && s.subrange(i, i + p.len()) == p
}

/// `p` occurs somewhere in `s`.
pub open spec fn contains_spec(s: Seq<char>, p: Seq<char>) -> bool {
    exists|i: int| contains_at(s, p, i)
}

/// Whether `p` occurs as a contiguous run inside `v`.
pub fn contains_chars(v: &Vec<char>, p: &Vec<char>) -> (r: bool)
    ensures
        r == contains_spec(v@, p@),
{
    if p.len() > v.len() {
        assert(forall|i: int| !contains_at(v@, p@, i));
        return false;
    }
    if p.len() == 0 {
        assert(v@.subrange(0, 0) =~= p@);
        assert(contains_at(v@, p@, 0));
        return true;
    }
    let limit: usize = v.len() - p.len();
    let mut i: usize = 0;
    while i <= limit
        invariant
            i <= limit + 1,
            limit == v@.len() - p@.len(),
            1 <= p@.len() <= v@.len() <= usize::MAX,
            forall|j: int| 0 <= j < i ==> !contains_at(v@, p@, j),
        decreases limit + 1 - i,
    {
        let window = subvec(v, i, i + p.len());
        if chars_eq(&window, p) {
            assert(contains_at(v@, p@, i as int));
            return true;
        }
        i = i + 1;
    }
    assert(forall|j: int| !contains_at(v@, p@, j));
    false
}

/// Every `from` character of `s` replaced with `to`.
pub open spec fn replace_spec(s: Seq<char>, from: char, to: char) -> Seq<char> {
    s.map_values(
        |c: char|
            if c == from {
                to
            } else {
                c
            },
    )
}

/// Every `from` character of `v` replaced with `to`.
pub fn replace_chars(v: &Vec<char>, from: char, to: char) -> (r: Vec<char>)
    ensures
        r@ == replace_spec(v@, from, to),
{
    let mut r: Vec<char> = Vec::new();
    let mut i: usize = 0;
    while i < v.len()
        invariant
            i <= v@.len(),
            r@ == replace_spec(v@.subrange(0, i as int), from, to),
        decreases v@.len() - i,
    {
        if v[i] == from {
            r.push(to);
        } else {
            r.push(v[i]);
        }
        assert(r@ =~= replace_spec(v@.subrange(0, i + 1), from, to));
        i = i + 1;
    }
    assert(v@.subrange(0, v@.len() as int) =~= v@);
    r
}

/// The characters of `a` followed by the characters of `b`.
pub fn concat_chars(a: &Vec<char>, b: &Vec<char>) -> (r: Vec<char>)
    ensures
        r@ == a@ + b@,
{
    let mut r = subvec(a, 0, a.len());
    assert(r@ =~= a@);
    let mut i: usize = 0;
    while i < b.len()
        invariant
            i <= b@.len(),
            r@ == a@ + b@.subrange(0, i as int),
        decreases b@.len() - i,
    {
        r.push(b[i]);
        assert(r@ =~= a@ + b@.subrange(0, i + 1));
        i = i + 1;
    }
    assert(r@ =~= a@ + b@);
    r
}

/// Index of the first newline of `s`, or its length if there is none.
pub open spec fn line_end(s: Seq<char>) -> nat
    decreases s.len(),
{
    if s.len() == 0 {
        0
    } else if s[0] == '\n' {
        0
    } else {
        1 + line_end(s.drop_first())
    }
}

pub proof fn lemma_line_end_bounds(s: Seq<char>)
    ensures
        line_end(s) <= s.len(),
    decreases s.len(),
{
    if s.len() > 0 && s[0] != '\n' {
        lemma_line_end_bounds(s.drop_first());
    }
}

/// The single line that starts `s`, whose newline is at index `k`: the
/// carriage return of a `\r\n` ending is dropped, a lone carriage return
/// is kept.
pub open spec fn line_at(s: Seq<char>, k: int) -> Seq<char> {
    if 0 < k && k < s.len() && s[k - 1] == '\r' {
        s.subrange(0, k - 1)
    } else {
        s.subrange(0, k)
    }
}

/// The lines of `s`, as `str::lines` reads them: terminators are `\n` or
/// `\r\n`, and a final terminator is optional.
pub open spec fn split_lines_spec(s: Seq<char>) -> Seq<Seq<char>>
    decreases s.len(),
    via split_lines_spec_dec
{
    if s.len() == 0 {
        Seq::empty()
    } else {
        let k = line_end(s) as int;
        if k == s.len() {
            seq![line_at(s, k)]
        } else {
            seq![line_at(s, k)] + split_lines_spec(s.skip(k + 1))
        }
    }
}

#[via_fn]
proof fn split_lines_spec_dec(s: Seq<char>) {
    lemma_line_end_bounds(s);
}

/// The lines of `v`, in order.
pub fn split_lines_chars(v: &Vec<char>) -> (r: Vec<Vec<char>>)
    ensures
        r.deep_view() == split_lines_spec(v@),
{
    let mut r: Vec<Vec<char>> = Vec::new();
    let mut i: usize = 0;
    let n = v.len();
    assert(v@.skip(0) =~= v@);
    while i < v.len()
        invariant
            n == v@.len(),
            i <= v@.len() <= usize::MAX,
            split_lines_spec(v@) =~~= r.deep_view() + split_lines_spec(v@.skip(i as int)),
        decreases v@.len() - i,
    {
        let start: usize = i;
        let mut j: usize = i;
        while j < v.len() && v[j] != '\n'
            invariant
                start <= j <= v@.len(),
                line_end(v@.skip(start as int)) == j - start + line_end(v@.skip(j as int)),
            decreases v@.len() - j,
        {
            assert(v@.skip(j as int).drop_first() =~= v@.skip(j as int + 1));
            j = j + 1;
        }
        proof {
            lemma_line_end_bounds(v@.skip(start as int));
        }
        let ghost tail = v@.skip(start as int);
        assert(line_end(tail) == j - start);
        let line = if j > start && v[j - 1] == '\r' && j < v.len() {
            let l = subvec(v, start, j - 1);
            assert(l@ =~= line_at(tail, j - start));
            l
        } else {
            let l = subvec(v, start, j);
            assert(l@ =~= line_at(tail, j - start));
            l
        };
        let ghost old_r = r.deep_view();
        r.push(line);
        assert(r.deep_view() =~~= old_r.push(line@));
        if j < v.len() {
            assert(tail.skip(j - start + 1) =~= v@.skip(j as int + 1));
            assert(split_lines_spec(v@) =~~= r.deep_view() + split_lines_spec(
                v@.skip(j as int + 1),
            ));
            i = j + 1;
        } else {
            assert(split_lines_spec(tail) =~~= seq![line_at(tail, j - start)]);
            assert(split_lines_spec(v@) =~~= r.deep_view() + split_lines_spec(v@.skip(j as int)));
            i = j;
        }
    }
    assert(split_lines_spec(v@) =~~= r.deep_view());
    r
}

/// `c` is a decimal digit.
pub open spec fn is_digit(c: char) -> bool {
    '0' <= c && c <= '9'
}

/// Every character of `s` is a decimal digit.
pub open spec fn all_digits(s: Seq<char>) -> bool {
    forall|i: int| 0 <= i < s.len() ==> is_digit(#[trigger] s[i])
}

/// The numeric value of the digit character `c`.
pub open spec fn digit_val(c: char) -> int {
    c as int - '0' as int
}

/// The numeric value of the digit string `s`.
pub open spec fn digits_value(s: Seq<char>) -> int
    decreases s.len(),
{
    if s.len() == 0 {
        0
    } else {
        digits_value(s.drop_last()) * 10 + digit_val(s[s.len() - 1])
    }
}

pub proof fn lemma_digits_value_nonneg(s: Seq<char>)
    requires
        all_digits(s),
    ensures
        digits_value(s) >= 0,
    decreases s.len(),
{
    if s.len() > 0 {
        assert(all_digits(s.drop_last()));
        lemma_digits_value_nonneg(s.drop_last());
    }
}

pub proof fn lemma_digits_value_prefix(s: Seq<char>, k: int)
    requires
        all_digits(s),
        0 <= k <= s.len(),
    ensures
        digits_value(s) >= digits_value(s.subrange(0, k)),
    decreases s.len() - k,
{
    if k < s.len() {
        lemma_digits_value_prefix(s, k + 1);
        assert(s.subrange(0, k + 1).drop_last() =~= s.subrange(0, k));
        assert(all_digits(s.subrange(0, k)));
        lemma_digits_value_nonneg(s.subrange(0, k));
        assert(digits_value(s.subrange(0, k + 1)) == digits_value(s.subrange(0, k)) * 10
            + digit_val(s[k]));
    } else {
        assert(s.subrange(0, k) =~= s);
    }
}

/// How `str::parse::<u64>` reads a string: an optional leading plus sign,
/// then one or more decimal digits, rejected on overflow.
pub open spec fn parse_u64_spec(s: Seq<char>) -> Option<u64> {
    let d = if s.len() > 0 && s[0] == '+' {
        s.drop_first()
    } else {
        s
    };
    if d.len() > 0 && all_digits(d) && digits_value(d) <= u64::MAX {
        Some(digits_value(d) as u64)
    } else {
        None
    }
}

/// The value of `v` as an unsigned decimal number, if it is one that fits
/// in a `u64`.
pub fn parse_u64_chars(v: &Vec<char>) -> (r: Option<u64>)
    ensures
        r == parse_u64_spec(v@),
{
    let start: usize = if v.len() > 0 && v[0] == '+' {
        1
    } else {
        0
    };
    let ghost d = if start == 1 {
        v@.drop_first()
    } else {
        v@
    };
    assert(d =~= v@.subrange(start as int, v@.len() as int));
    if v.len() == start {
        return None;
    }
    let mut i: usize = start;
    while i < v.len()
        invariant
            start <= i <= v@.len() <= usize::MAX,
            d =~= v@.subrange(start as int, v@.len() as int),
            d == if v@.len() > 0 && v@[0] == '+' {
                v@.drop_first()
            } else {
                v@
            },
            d.len() > 0,
            forall|j: int| 0 <= j < i - start ==> is_digit(#[trigger] d[j]),
        decreases v@.len() - i,
    {
        let c = v[i];
        if c < '0' || c > '9' {
            assert(!is_digit(d[i - start]));
            return None;
        }
        assert(is_digit(d[i - start]));
        i = i + 1;
    }
    assert(all_digits(d));
    let mut acc: u64 = 0;
    let mut k: usize = start;
    while k < v.len()
        invariant
            start <= k <= v@.len() <= usize::MAX,
            d =~= v@.subrange(start as int, v@.len() as int),
            d == if v@.len() > 0 && v@[0] == '+' {
                v@.drop_first()
            } else {
                v@
            },
            d.len() > 0,
            all_digits(d),
            acc == digits_value(d.subrange(0, k - start)),
        decreases v@.len() - k,
    {
        let c = v[k];
        assert(is_digit(d[k - start]));
        let dv: u64 = (c as u32 as u64) - ('0' as u32 as u64);
        assert(dv == digit_val(d[k - start]));
        let ghost pre = d.subrange(0, k - start);
        let ghost pre1 = d.subrange(0, k - start + 1);
        assert(pre1.drop_last() =~= pre);
        assert(digits_value(pre1) == digits_value(pre) * 10 + digit_val(d[k - start]));
        let shifted = match acc.checked_mul(10) {
            Some(x) => x,
            None => {
                proof {
                    lemma_digits_value_nonneg(pre);
                    lemma_digits_value_prefix(d, k - start + 1);
                }
                return None;
            },
        };
        acc = match shifted.checked_add(dv) {
            Some(x) => x,
            None => {
                proof {
                    lemma_digits_value_nonneg(pre);
                    lemma_digits_value_prefix(d, k - start + 1);
                }
                return None;
            },
        };
        k = k + 1;
    }
    assert(d.subrange(0, v@.len() - start) =~= d);
    Some(acc)
}

/// The digit character for the value `d`.
pub open spec fn digit_char(d: int) -> char {
    if d == 0 {
        '0'
    } else if d == 1 {
        '1'
    } else if d == 2 {
        '2'
    } else if d == 3 {
        '3'
    } else if d == 4 {
        '4'
    } else if d == 5 {
        '5'
    } else if d == 6 {
        '6'
    } else if d == 7 {
        '7'
    } else if d == 8 {
        '8'
    } else {
        '9'
    }
}

/// The decimal digits of the non-negative number `n`, most significant
/// first, with no leading zeros.
pub open spec fn u64_digits_spec(n: int) -> Seq<char>
    decreases n,
{
    if n < 10 {
        seq![digit_char(n)]
    } else {
        u64_digits_spec(n / 10).push(digit_char(n % 10))
    }
}

fn digit_to_char(d: u64) -> (c: char)
    requires
        d < 10,
    ensures
        c == digit_char(d as int),
{
    if d == 0 {
        '0'
    } else if d == 1 {
        '1'
    } else if d == 2 {
        '2'
    } else if d == 3 {
        '3'
    } else if d == 4 {
        '4'
    } else if d == 5 {
        '5'
    } else if d == 6 {
        '6'
    } else if d == 7 {
        '7'
    } else if d == 8 {
        '8'
    } else {
        '9'
    }
}

/// The decimal representation of `n`.
pub fn u64_to_chars(n: u64) -> (r: Vec<char>)
    ensures
        r@ == u64_digits_spec(n as int),
{
    let mut r: Vec<char> = Vec::new();
    let mut m: u64 = n;
    let c0 = digit_to_char(m % 10);
    r.insert(0, c0);
    m = m / 10;
    while m > 0
        invariant
            if m > 0 {
                u64_digits_spec(n as int) =~= u64_digits_spec(m as int) + r@
            } else {
                u64_digits_spec(n as int) =~= r@
            },
        decreases m,
    {
        let c = digit_to_char(m % 10);
        r.insert(0, c);
        m = m / 10;
        proof {
            if m > 0 {
                assert(u64_digits_spec(n as int) =~= u64_digits_spec(m as int) + r@);
            }
        }
    }
    r
}

} // verus!
