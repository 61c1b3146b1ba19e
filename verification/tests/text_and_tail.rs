use rustinx::metrics::{aggregate_nginx_processes, parse_netstat_output, ProcessSample};
use rustinx::tail::{parse_lines_count, read_log_tail_lines, TailBuffer};
use rustinx::text::{chars_to_string, parse_u64_chars, to_chars, u64_to_chars};

#[test]
fn tail_three_lines_delivered_once() {
    let mut buffer = TailBuffer::new();
    let lines = buffer.push_chunk("first\nsecond\nthird\n");
    assert_eq!(lines, vec!["first", "second", "third"]);
    // Nothing is pending, so nothing is delivered twice.
    let again = buffer.push_chunk("");
    assert!(again.is_empty());
}

#[test]
fn tail_partial_line_held() {
    let mut buffer = TailBuffer::new();
    let lines = buffer.push_chunk("alpha\nbet");
    assert_eq!(lines, vec!["alpha"]);
    let lines = buffer.push_chunk("a\ngamma\n");
    assert_eq!(lines, vec!["beta", "gamma"]);
}

#[test]
fn tail_empty_chunk_delivers_nothing() {
    let mut buffer = TailBuffer::new();
    let lines = buffer.push_chunk("");
    assert!(lines.is_empty());
    let lines = buffer.push_chunk("no newline yet");
    assert!(lines.is_empty());
    let lines = buffer.push_chunk("\n");
    assert_eq!(lines, vec!["no newline yet"]);
}

#[test]
fn read_log_tail_filters_blank() {
    let out = "one\n\n   \ntwo\n";
    assert_eq!(read_log_tail_lines(out), vec!["one", "two"]);
}

#[test]
fn read_log_tail_keeps_order() {
    let out = "10 GET /a\n20 GET /b\n";
    assert_eq!(read_log_tail_lines(out), vec!["10 GET /a", "20 GET /b"]);
}

#[test]
fn parse_lines_count_defaults() {
    assert_eq!(parse_lines_count(None), 100);
    assert_eq!(parse_lines_count(Some(&"250".to_string())), 250);
    assert_eq!(parse_lines_count(Some(&"abc".to_string())), 100);
    assert_eq!(parse_lines_count(Some(&"-5".to_string())), 100);
    assert_eq!(parse_lines_count(Some(&"".to_string())), 100);
}

#[test]
fn parse_netstat_sums() {
    let out = "tcp4 0 0 10.0.0.1.443 10.0.0.2.50000 100 200 4096 4096 ESTABLISHED\n\
               tcp4 0 0 10.0.0.1.80 10.0.0.3.50001 7 11 4096 4096 ESTABLISHED\n";
    assert_eq!(parse_netstat_output(out), Ok((107, 211)));
}

#[test]
fn parse_netstat_ignores_short_lines() {
    let out = "header line\ntcp short row\n";
    assert_eq!(parse_netstat_output(out), Ok((0, 0)));
}

#[test]
fn parse_netstat_non_numeric_fields_count_zero() {
    let out = "a b c d e not-a-number nine g h i\n";
    assert_eq!(parse_netstat_output(out), Ok((0, 0)));
}

#[test]
fn aggregate_nginx_process_counts() {
    let procs = vec![
        ProcessSample { name: "nginx: master process".to_string(), memory: 10 },
        ProcessSample { name: "nginx: worker process".to_string(), memory: 20 },
        ProcessSample { name: "nginx: worker process".to_string(), memory: 30 },
        ProcessSample { name: "postgres".to_string(), memory: 999 },
    ];
    let (tasks, workers, memory) = aggregate_nginx_processes(&procs);
    assert_eq!(tasks, 3);
    assert_eq!(workers, 2);
    assert_eq!(memory, 60);
}

#[test]
fn digits_round_trip() {
    assert_eq!(chars_to_string(&u64_to_chars(0)), "0");
    assert_eq!(chars_to_string(&u64_to_chars(42)), "42");
    assert_eq!(chars_to_string(&u64_to_chars(1234567890)), "1234567890");
    assert_eq!(
        chars_to_string(&u64_to_chars(u64::MAX)),
        "18446744073709551615"
    );
}

#[test]
fn parse_u64_variants() {
    assert_eq!(parse_u64_chars(&to_chars("42")), Some(42));
    assert_eq!(parse_u64_chars(&to_chars("+7")), Some(7));
    assert_eq!(parse_u64_chars(&to_chars("0")), Some(0));
    assert_eq!(parse_u64_chars(&to_chars("")), None);
    assert_eq!(parse_u64_chars(&to_chars("+")), None);
    assert_eq!(parse_u64_chars(&to_chars("4 2")), None);
    assert_eq!(parse_u64_chars(&to_chars("18446744073709551615")), Some(u64::MAX));
    assert_eq!(parse_u64_chars(&to_chars("18446744073709551616")), None);
}
