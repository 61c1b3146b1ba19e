//! Aggregation of system observations about the managed service.
//!
//! The boundary gathers raw observations — the process table, the
//! network-statistics tool's output — and these functions reduce them to
//! the numbers the console shows.  Sums saturate instead of wrapping, so a
//! nonsensical observation can never panic the handler.

use vstd::prelude::*;
use crate::text::{contains_chars, contains_spec, parse_u64_spec, parse_u64_chars, split_lines_chars,
    split_lines_spec, split_ws_chars, split_ws_spec, to_chars};

verus! {

/// Addition on the range of a `u64`, stuck at the top instead of wrapping.
pub open spec fn sat_add(a: int, b: int) -> int {
    if a + b > u64::MAX {
        u64::MAX as int
    } else {
        a + b
    }
}

/// The value of a whitespace-separated field read as a number, zero when
/// it is not one.
pub open spec fn field_value(s: Seq<char>) -> int {
    match parse_u64_spec(s) {
        Some(n) => n as int,
        None => 0,
    }
}

/// What one line of the network-statistics output contributes: fields six
/// and seven of a line with more than seven fields are its transmitted and
/// received byte counts.
pub open spec fn line_bytes(l: Seq<char>) -> (int, int) {
    let parts = split_ws_spec(l);
    if parts.len() > 7 {
        (field_value(parts[5]), field_value(parts[6]))
    } else {
        (0, 0)
    }
}

/// The transmitted and received byte totals over the given lines.
pub open spec fn netstat_sums(lines: Seq<Seq<char>>) -> (int, int)
    decreases lines.len(),
{
    if lines.len() == 0 {
        (0, 0)
    } else {
        let rest = netstat_sums(lines.drop_last());
        let cur = line_bytes(lines.last());
        (sat_add(rest.0, cur.0), sat_add(rest.1, cur.1))
    }
}

/// Sums the transmitted and received bytes of the established connections
/// that the network-statistics tool reported, line by line.
pub fn parse_netstat_output(output: &str) -> (r: Result<(u64, u64), String>)
    ensures
        r matches Ok(b) && (b.0 as int, b.1 as int) == netstat_sums(split_lines_spec(output@)),
{
    let chars = to_chars(output);
    let lines = split_lines_chars(&chars);
    let mut tx: u64 = 0;
    let mut rx: u64 = 0;
    let mut i: usize = 0;
    let n = lines.len();
    assert(lines.deep_view().subrange(0, 0) =~~= Seq::<Seq<char>>::empty());
    while i < n
        invariant
            i <= n == lines@.len(),
            lines.deep_view() == split_lines_spec(chars@),
            (tx as int, rx as int) == netstat_sums(lines.deep_view().subrange(0, i as int)),
        decreases n - i,
    {
        let ghost prefix = lines.deep_view().subrange(0, i as int);
        let ghost prefix1 = lines.deep_view().subrange(0, i + 1);
        assert(prefix1.drop_last() =~~= prefix);
        assert(prefix1.last() =~= lines@[i as int]@);
        let parts = split_ws_chars(&lines[i]);
        if parts.len() > 7 {
            assert(parts.deep_view()[5] =~= parts@[5]@);
            assert(parts.deep_view()[6] =~= parts@[6]@);
            let t = match parse_u64_chars(&parts[5]) {
                Some(v) => v,
                None => 0,
            };
            let u = match parse_u64_chars(&parts[6]) {
                Some(v) => v,
                None => 0,
            };
            tx = tx.saturating_add(t);
            rx = rx.saturating_add(u);
        }
        i = i + 1;
    }
    assert(lines.deep_view().subrange(0, n as int) =~~= lines.deep_view());
    Ok((tx, rx))
}

/// One row of the process table as the boundary reports it: the process
/// name, already case-folded by the caller, and its memory use.
pub struct ProcessSample {
    pub name: String,
    pub memory: u64,
}

impl View for ProcessSample {
    type V = (Seq<char>, u64);

    open spec fn view(&self) -> (Seq<char>, u64) {
        (self.name@, self.memory)
    }
}

/// The process belongs to the managed service.
pub open spec fn counts_as_nginx(name: Seq<char>) -> bool {
    contains_spec(name, "nginx"@)
}

/// The process is one of the service's worker processes.
pub open spec fn counts_as_worker(name: Seq<char>) -> bool {
    contains_spec(name, "worker process"@)
}

/// Task count, worker count and saturated memory total of the service's
/// processes among the given samples.
pub open spec fn process_totals(procs: Seq<(Seq<char>, u64)>) -> (int, int, int)
    decreases procs.len(),
{
    if procs.len() == 0 {
        (0, 0, 0)
    } else {
        let rest = process_totals(procs.drop_last());
        let p = procs.last();
        if counts_as_nginx(p.0) {
            (
                rest.0 + 1,
                rest.1 + if counts_as_worker(p.0) {
                    1int
                } else {
                    0int
                },
                sat_add(rest.2, p.1 as int),
            )
        } else {
            rest
        }
    }
}

/// Counts the service's tasks and workers and sums their memory use over
/// the sampled process table.
pub fn aggregate_nginx_processes(procs: &Vec<ProcessSample>) -> (r: (usize, usize, u64))
    ensures
        (r.0 as int, r.1 as int, r.2 as int) == process_totals(
            procs@.map_values(|p: ProcessSample| p@),
        ),
{
    let ghost all = procs@.map_values(|p: ProcessSample| p@);
    let mut tasks: usize = 0;
    let mut workers: usize = 0;
    let mut memory: u64 = 0;
    let mut i: usize = 0;
    let n = procs.len();
    assert(all.subrange(0, 0) =~= Seq::<(Seq<char>, u64)>::empty());
    while i < n
        invariant
            i <= n == procs@.len(),
            all == procs@.map_values(|p: ProcessSample| p@),
            tasks <= i,
            workers <= tasks,
            (tasks as int, workers as int, memory as int) == process_totals(
                all.subrange(0, i as int),
            ),
        decreases n - i,
    {
        let ghost prefix = all.subrange(0, i as int);
        let ghost prefix1 = all.subrange(0, i + 1);
        assert(prefix1.drop_last() =~= prefix);
        assert(prefix1.last() == all[i as int]);
        let name_chars = to_chars(procs[i].name.as_str());
        if contains_chars(&name_chars, &to_chars("nginx")) {
            tasks = tasks + 1;
            if contains_chars(&name_chars, &to_chars("worker process")) {
                workers = workers + 1;
            }
            memory = memory.saturating_add(procs[i].memory);
        }
        i = i + 1;
    }
    assert(all.subrange(0, n as int) =~= all);
    (tasks, workers, memory)
}

} // verus!
