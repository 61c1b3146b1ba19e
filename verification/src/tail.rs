//! Incremental line buffering for a tailed log file.
//!
//! A watcher polls a growing file and hands whatever new bytes appeared to
//! a [`TailBuffer`], which cuts them into completed lines: each line is
//! delivered exactly once, in append order, and a trailing fragment waits
//! in the buffer until its newline arrives.  The polling, sleeping and
//! reading stay in the unverified boundary.

use vstd::prelude::*;
use crate::text::{chars_to_string, concat_chars, line_end, parse_u64_spec, parse_u64_chars,
    split_lines_chars, split_lines_spec, subvec, to_chars, trim_chars, trim_spec};

verus! {

/// The completed lines of `s`: every maximal newline-terminated segment,
/// without its terminator, in order.
pub open spec fn complete_lines(s: Seq<char>) -> Seq<Seq<char>>
    decreases s.len(),
    via complete_lines_dec
{
    if s.len() == 0 {
        Seq::empty()
    } else {
        let k = line_end(s) as int;
        if k == s.len() {
            Seq::empty()
        } else {
            seq![s.subrange(0, k)] + complete_lines(s.skip(k + 1))
        }
    }
}

#[via_fn]
proof fn complete_lines_dec(s: Seq<char>) {
    crate::text::lemma_line_end_bounds(s);
}

/// What remains of `s` after its last completed line: the pending
/// fragment that no newline has ended yet.
pub open spec fn carry_of(s: Seq<char>) -> Seq<char>
    decreases s.len(),
    via carry_of_dec
{
    if s.len() == 0 {
        s
    } else {
        let k = line_end(s) as int;
        if k == s.len() {
            s
        } else {
            carry_of(s.skip(k + 1))
        }
    }
}

#[via_fn]
proof fn carry_of_dec(s: Seq<char>) {
    crate::text::lemma_line_end_bounds(s);
}

proof fn lemma_line_end_at(s: Seq<char>, k: int)
    requires
        0 <= k <= s.len(),
        forall|t: int| 0 <= t < k ==> s[t] != '\n',
        k < s.len() ==> s[k] == '\n',
    ensures
        line_end(s) == k || (k == s.len() && line_end(s) == s.len()),
    decreases k,
{
    if k > 0 {
        lemma_line_end_at(s.drop_first(), k - 1);
    } else {
        if s.len() > 0 && s[0] != '\n' {
            crate::text::lemma_line_end_bounds(s.drop_first());
        }
    }
}

/// The pending tail of a followed log file: the characters after the last
/// newline seen so far.
pub struct TailBuffer {
    carry: Vec<char>,
}

impl TailBuffer {
    /// The pending fragment.
    pub closed spec fn view(&self) -> Seq<char> {
        self.carry@
    }

    /// A buffer with nothing pending.
    pub fn new() -> (r: TailBuffer)
        ensures
            r@ == Seq::<char>::empty(),
    {
        TailBuffer { carry: Vec::new() }
    }

    /// Feeds newly appended text in and returns every line it completes:
    /// the completed lines of the pending fragment followed by the new
    /// text, in order, and the fragment after the last newline stays
    /// pending.
    pub fn push_chunk(&mut self, chunk: &str) -> (lines: Vec<String>)
        ensures
            lines.deep_view() == complete_lines(old(self)@ + chunk@),
            final(self)@ == carry_of(old(self)@ + chunk@),
    {
        let chunk_chars = to_chars(chunk);
        let all = concat_chars(&self.carry, &chunk_chars);
        let n = all.len();
        let mut lines: Vec<String> = Vec::new();
        let mut i: usize = 0;
        let mut j: usize = 0;
        assert(all@.skip(0) =~= all@);
        while j < n
            invariant
                i <= j <= n == all@.len(),
                forall|t: int| i <= t < j ==> all@[t] != '\n',
                complete_lines(all@) =~~= lines.deep_view() + complete_lines(all@.skip(i as int)),
                carry_of(all@) == carry_of(all@.skip(i as int)),
            decreases n - j,
        {
            if all[j] == '\n' {
                proof {
                    lemma_line_end_at(all@.skip(i as int), j - i);
                }
                let line = subvec(&all, i, j);
                assert(line@ =~= all@.skip(i as int).subrange(0, j - i));
                assert(all@.skip(i as int).skip(j - i + 1) =~= all@.skip(j + 1));
                let ghost old_lines = lines.deep_view();
                lines.push(chars_to_string(&line));
                assert(lines.deep_view() =~~= old_lines.push(line@));
                assert(complete_lines(all@) =~~= lines.deep_view() + complete_lines(
                    all@.skip(j + 1),
                ));
                i = j + 1;
            }
            j = j + 1;
        }
        proof {
            lemma_line_end_at(all@.skip(i as int), n - i);
        }
        assert(complete_lines(all@.skip(i as int)) =~~= Seq::<Seq<char>>::empty());
        assert(carry_of(all@.skip(i as int)) == all@.skip(i as int));
        let rest = subvec(&all, i, n);
        assert(rest@ =~= all@.skip(i as int));
        self.carry = rest;
        assert(lines.deep_view() =~~= complete_lines(all@));
        lines
    }
}

proof fn lemma_complete_lines_step(l: Seq<char>, rest: Seq<char>)
    requires
        !l.contains('\n'),
    ensures
        complete_lines(l + seq!['\n'] + rest) == seq![l] + complete_lines(rest),
        carry_of(l + seq!['\n'] + rest) == carry_of(rest),
{
    let s = l + seq!['\n'] + rest;
    assert(forall|t: int| 0 <= t < l.len() ==> s[t] != '\n');
    assert(s[l.len() as int] == '\n');
    lemma_line_end_at(s, l.len() as int);
    assert(s.subrange(0, l.len() as int) =~= l);
    assert(s.skip(l.len() as int + 1) =~= rest);
    assert(complete_lines(s) =~= seq![l] + complete_lines(rest));
}

/// Law: appending three newline-terminated lines to a buffer with nothing
/// pending delivers exactly those three lines, in append order, once each,
/// and leaves nothing pending.
pub proof fn lemma_tail_three_lines(l1: Seq<char>, l2: Seq<char>, l3: Seq<char>)
    requires
        !l1.contains('\n'),
        !l2.contains('\n'),
        !l3.contains('\n'),
    ensures
        complete_lines(l1 + seq!['\n'] + l2 + seq!['\n'] + l3 + seq!['\n']) == seq![l1, l2, l3],
        carry_of(l1 + seq!['\n'] + l2 + seq!['\n'] + l3 + seq!['\n']) == Seq::<char>::empty(),
{
    let whole = l1 + seq!['\n'] + l2 + seq!['\n'] + l3 + seq!['\n'];
    let after1 = l2 + seq!['\n'] + l3 + seq!['\n'];
    let after2 = l3 + seq!['\n'];
    assert(whole =~= l1 + seq!['\n'] + after1);
    lemma_complete_lines_step(l1, after1);
    assert(after1 =~= l2 + seq!['\n'] + after2);
    lemma_complete_lines_step(l2, after2);
    assert(after2 =~= l3 + seq!['\n'] + Seq::<char>::empty());
    lemma_complete_lines_step(l3, Seq::empty());
    assert(complete_lines(Seq::<char>::empty()) =~= Seq::<Seq<char>>::empty());
    assert(complete_lines(whole) =~= seq![l1, l2, l3]);
}

/// The non-blank lines of a tail utility's output, in order: lines whose
/// characters are not all whitespace.
pub fn read_log_tail_lines(output: &str) -> (r: Vec<String>)
    ensures
        r.deep_view() == split_lines_spec(output@).filter(
            |l: Seq<char>| trim_spec(l).len() > 0,
        ),
{
    let chars = to_chars(output);
    let lines = split_lines_chars(&chars);
    let ghost pred = |l: Seq<char>| trim_spec(l).len() > 0;
    let mut r: Vec<String> = Vec::new();
    let mut i: usize = 0;
    let n = lines.len();
    proof {
        reveal(Seq::filter);
    }
    assert(lines.deep_view().subrange(0, 0) =~~= Seq::<Seq<char>>::empty());
    assert(Seq::<Seq<char>>::empty().filter(pred) =~~= Seq::<Seq<char>>::empty());
    while i < n
        invariant
            i <= n == lines@.len(),
            lines.deep_view() == split_lines_spec(chars@),
            r.deep_view() == lines.deep_view().subrange(0, i as int).filter(pred),
            pred == (|l: Seq<char>| trim_spec(l).len() > 0),
        decreases n - i,
    {
        let ghost prefix = lines.deep_view().subrange(0, i as int);
        let ghost prefix1 = lines.deep_view().subrange(0, i + 1);
        assert(prefix1.drop_last() =~~= prefix);
        assert(prefix1.last() == lines.deep_view()[i as int]);
        let trimmed = trim_chars(&lines[i]);
        proof {
            reveal(Seq::filter);
            assert(prefix1.last() =~= lines@[i as int]@);
            assert(pred(prefix1.last()) == (trimmed@.len() > 0));
        }
        if trimmed.len() > 0 {
            let ghost old_r = r.deep_view();
            r.push(chars_to_string(&lines[i]));
            assert(r.deep_view() =~~= old_r.push(lines.deep_view()[i as int]));
            assert(lines.deep_view()[i as int] =~= prefix1.last());
            assert(r.deep_view() =~~= prefix1.filter(pred));
        } else {
            assert(r.deep_view() =~~= prefix1.filter(pred));
        }
        i = i + 1;
    }
    assert(lines.deep_view().subrange(0, n as int) =~~= lines.deep_view());
    r
}

/// Reads the requested line count of a log fetch: a value that parses as
/// an unsigned number within range, anything else falling back to the
/// default of one hundred lines.
pub fn parse_lines_count(raw: Option<&String>) -> (r: usize)
    ensures
        match raw {
            Some(s) => r as int == (match parse_u64_spec(s@) {
                Some(n) => if n <= usize::MAX {
                    n as int
                } else {
                    100
                },
                None => 100,
            }),
            None => r == 100,
        },
{
    match raw {
        Some(s) => {
            let chars = to_chars(s.as_str());
            match parse_u64_chars(&chars) {
                Some(n) => {
                    if n <= usize::MAX as u64 {
                        n as usize
                    } else {
                        100
                    }
                },
                None => 100,
            }
        },
        None => 100,
    }
}

} // verus!
