use llama_cpp_config::log_tail::{Tail, INIT_TAIL, MAX_RETAINED};

const MISSING_TEXT: &str =
    "(log file not found — it is created the first time llama-server starts)";

/// One poll of a log that holds these bytes; none is a log that is not there.
fn poll(t: &mut Tail, log: Option<&[u8]>) {
    let Some(bytes) = log else {
        t.lost();
        return;
    };
    if let Some(read) = t.plan(bytes.len() as u64) {
        let new = &bytes[read.from as usize..];
        t.absorb(read, new.len() as u64, &String::from_utf8_lossy(new));
    }
}

#[test]
fn follows_appends_and_reports_a_missing_file() {
    let mut t = Tail::default();

    // Missing file → placeholder, and the tail keeps polling.
    poll(&mut t, None);
    assert!(t.missing);
    assert_eq!(t.buffer, MISSING_TEXT);

    // File appears → placeholder replaced by content from offset 0.
    let mut log = b"line 1\n".to_vec();
    poll(&mut t, Some(&log));
    assert!(!t.missing);
    assert_eq!(t.buffer, "line 1\n");

    // Appends accumulate; unchanged file is a no-op.
    log.extend_from_slice(b"line 2\n");
    poll(&mut t, Some(&log));
    poll(&mut t, Some(&log));
    assert_eq!(t.buffer, "line 1\nline 2\n");
}

#[test]
fn truncation_resets_and_rereads_from_the_top() {
    let mut t = Tail::default();
    poll(&mut t, Some(b"old old old\n"));
    // Shorter than what was consumed → another file.
    poll(&mut t, Some(b"fresh\n"));
    assert_eq!(t.buffer, "fresh\n");
}

#[test]
fn first_read_backfills_only_the_tail_and_drops_the_partial_line() {
    // One INIT_TAIL-dwarfing file of known lines.
    let line = format!("{}\n", "x".repeat(99)); // 100 bytes/line
    let log = line.repeat(2000); // 200 KB > INIT_TAIL

    let mut t = Tail::default();
    poll(&mut t, Some(log.as_bytes()));
    assert!(t.buffer.len() <= INIT_TAIL as usize);
    // The seek lands mid-line; the partial first line must be gone, so the
    // retained text starts on a boundary and is made of whole lines.
    assert!(t.buffer.starts_with(&line));
    assert!(t.buffer.ends_with('\n'));
    assert_eq!(t.buffer.len() % line.len(), 0);
}

// The real log is not pure ASCII (chat-template dumps, model metadata):
// when the retention cut lands INSIDE a multi-byte char, the trim must
// step to the next boundary instead of panicking mid-slice.
#[test]
fn retention_cap_survives_a_cut_inside_a_multibyte_char() {
    let mut t = Tail::default();

    // Small first read (no backfill), then one over-cap append whose
    // byte layout puts `len - MAX_RETAINED` at an odd offset inside a
    // run of 2-byte chars — i.e. mid-'é'.
    let mut log = String::from("x\n");
    poll(&mut t, Some(log.as_bytes()));
    log.push_str(&format!("{}\n", "é".repeat(131_500)));
    log.push_str("tail line\n");
    poll(&mut t, Some(log.as_bytes()));

    assert!(t.buffer.len() <= MAX_RETAINED as usize);
    // The é-monster line had no newline in range, so the cut lands right
    // after it — only the following full line survives.
    assert_eq!(t.buffer, "tail line\n");
}

#[test]
fn retention_cap_trims_oldest_lines_on_a_line_boundary() {
    let mut t = Tail::default();

    let line = format!("{}\n", "y".repeat(99));
    let mut log = line.repeat(1000); // ~100 KB seed (backfilled to 64 KB)
    poll(&mut t, Some(log.as_bytes()));
    // Keep appending past the retention cap in follow mode.
    for _ in 0..4 {
        log.push_str(&line.repeat(1000));
        poll(&mut t, Some(log.as_bytes()));
    }
    assert!(t.buffer.len() <= MAX_RETAINED as usize);
    assert!(t.buffer.starts_with(&line), "must trim on a line boundary");
}
