use terminal_mcp::tail::{TailBuffer, MAX_LINE_BYTES};

#[test]
fn test_overlong_multibyte_line_truncated_at_char_boundary() {
    let line = "€".repeat(350_000); // 1_050_000 bytes, > 1 MiB
    let mut buf = TailBuffer::new(0);
    buf.push(&line, true);
    let (out, _truncated) = buf.finish();
    assert!(out.len() <= 1_048_576, "line must be capped to 1 MiB");
    assert!(!out.is_empty(), "truncation must not drop the line");
    assert!(
        out.chars().all(|c| c == '€'),
        "truncation must not produce partial characters"
    );
}

#[test]
fn test_overlong_multibyte_line_truncated_in_ring_mode() {
    let line = "€".repeat(350_000);
    let mut buf = TailBuffer::new(2);
    buf.push("short", true);
    buf.push(&line, true);
    let (out, _truncated) = buf.finish();
    assert!(out.starts_with("short\n"));
    assert!(out.len() <= 1_048_576 + "short\n".len());
}

#[test]
fn ring_keeps_the_last_lines_in_order() {
    let mut buf = TailBuffer::new(3);
    for i in 1..=10 {
        buf.push(&format!("line{i}"), true);
    }
    let (out, truncated) = buf.finish();
    assert_eq!(out, "line8\nline9\nline10\n");
    assert!(truncated);
}

#[test]
fn ring_under_capacity_is_not_truncated() {
    let mut buf = TailBuffer::new(5);
    buf.push("hello", true);
    let (out, truncated) = buf.finish();
    assert_eq!(out, "hello\n");
    assert!(!truncated);
}

#[test]
fn ring_exactly_full_is_not_truncated() {
    let mut buf = TailBuffer::new(2);
    buf.push("a", true);
    buf.push("b", false);
    let (out, truncated) = buf.finish();
    assert_eq!(out, "a\nb");
    assert!(!truncated);
}

#[test]
fn unlimited_keeps_every_line() {
    let mut buf = TailBuffer::new(0);
    for i in 1..=300 {
        buf.push(&format!("line{i}"), true);
    }
    let (out, truncated) = buf.finish();
    assert!(!truncated);
    assert_eq!(out.lines().count(), 300);
    assert!(out.starts_with("line1\n"));
    assert!(out.ends_with("line300\n"));
}

#[test]
fn empty_buffer_gives_empty_text() {
    let (out, truncated) = TailBuffer::new(0).finish();
    assert_eq!(out, "");
    assert!(!truncated);
    let (out, truncated) = TailBuffer::new(4).finish();
    assert_eq!(out, "");
    assert!(!truncated);
}

#[test]
fn unlimited_mode_drops_lines_beyond_the_byte_budget() {
    let big = "x".repeat(MAX_LINE_BYTES);
    let mut buf = TailBuffer::new(0);
    for _ in 0..12 {
        buf.push(&big, true);
    }
    buf.push("tail", true);
    let (out, truncated) = buf.finish();
    assert!(!truncated);
    // Ten full lines fill the 10 MiB budget exactly; every later line,
    // even the four bytes of "tail", is dropped.
    assert_eq!(out.lines().count(), 10);
    assert!(!out.contains("tail"));
}

#[test]
fn unlimited_mode_keeps_small_lines_that_still_fit() {
    let big = "x".repeat(MAX_LINE_BYTES);
    let mut buf = TailBuffer::new(0);
    for _ in 0..9 {
        buf.push(&big, true);
    }
    buf.push(&big, true);
    buf.push(&"y".repeat(MAX_LINE_BYTES - 1), true);
    buf.push("z", true);
    let (out, _) = buf.finish();
    // The eleventh line does not fit; "z" still does not (budget is full).
    assert_eq!(out.lines().count(), 10);
    let mut small = TailBuffer::new(0);
    for _ in 0..9 {
        small.push(&big, true);
    }
    small.push("tail", true);
    let (out, _) = small.finish();
    assert_eq!(out.lines().count(), 10);
    assert!(out.ends_with("tail\n"));
}

#[test]
fn read_lines_strip_and_remember_the_newline() {
    let mut buf = TailBuffer::new(0);
    buf.push_read_line("first\n");
    buf.push_read_line("second");
    assert_eq!(buf.total_lines(), 2);
    let (out, _) = buf.finish();
    assert_eq!(out, "first\nsecond");
}

#[test]
fn stdin_echo_without_trailing_newline_is_kept_verbatim() {
    let mut buf = TailBuffer::new(200);
    buf.push_read_line("hello from stdin");
    let (out, truncated) = buf.finish();
    assert_eq!(out, "hello from stdin");
    assert!(!truncated);
}

#[test]
fn ring_mode_keeps_at_most_the_byte_budget() {
    let big = "x".repeat(MAX_LINE_BYTES);
    let mut buf = TailBuffer::new(11);
    for _ in 0..11 {
        buf.push(&big, true);
    }
    let (out, truncated) = buf.finish();
    // Eleven 1 MiB lines exceed the 10 MiB budget: the oldest is dropped.
    assert_eq!(out.lines().count(), 10);
    assert!(out.len() <= 10 * 1024 * 1024 + 10);
    assert!(truncated);
}

#[test]
fn ring_mode_budget_keeps_the_newest_lines() {
    let big = "x".repeat(MAX_LINE_BYTES);
    let mut buf = TailBuffer::new(50);
    buf.push("first", true);
    for _ in 0..10 {
        buf.push(&big, true);
    }
    buf.push("last", false);
    let (out, truncated) = buf.finish();
    assert!(truncated);
    assert!(!out.contains("first"));
    assert!(out.ends_with("x\nlast"));
    assert_eq!(out.lines().count(), 10);
}
