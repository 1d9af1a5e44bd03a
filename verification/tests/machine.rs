use llama_cpp_config::machine::{stamp, Adapter};
use llama_cpp_config::stamp::human_uptime;

#[test]
fn uptime_reads_as_days_hours_minutes() {
    assert_eq!(human_uptime(0), "up 0 m");
    assert_eq!(human_uptime(59), "up 0 m");
    assert_eq!(human_uptime(3 * 60), "up 3 m");
    assert_eq!(human_uptime(4 * 3600 + 12 * 60), "up 4 h 12 m");
    assert_eq!(human_uptime(3 * 86_400 + 4 * 3600), "up 3 d 4 h");
}

// A clock moved backwards behind a monotonic uptime must not produce a boot
// time in the future; the report would then read as nonsense rather than as
// an unknown.
#[test]
fn a_backwards_clock_cannot_produce_a_future_boot_time() {
    let rows = stamp(0, Some(3 * 86_400), &Vec::<Adapter>::new());
    assert_eq!(rows.len(), 1);
    for (label, value) in &rows {
        if label == "booted" {
            assert!(
                value.starts_with("1970-01-01"),
                "saturated to the epoch, not wrapped: {value}"
            );
        }
    }
}
