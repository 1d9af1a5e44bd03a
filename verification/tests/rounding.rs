use llama_cpp_config::gguf::{format_mib, group_thousands};
use llama_cpp_config::log_tail::tail_status;
use llama_cpp_config::rounding::{as_double, push_one_decimal, push_two_decimals, rounded};
use llama_cpp_config::runs::{decode_note, prefill_note};

#[test]
fn ties_go_to_the_even_neighbour() {
    assert_eq!(rounded(1, 2), 0);
    assert_eq!(rounded(3, 2), 2);
    assert_eq!(rounded(5, 2), 2);
    assert_eq!(rounded(7, 3), 2);
    assert_eq!(rounded(8, 3), 3);
}

#[test]
fn wide_numbers_become_the_nearest_double() {
    for n in [0u64, 1, (1 << 53) - 1, 1 << 53, (1 << 53) + 1, (1 << 53) + 3, u64::MAX - 1, u64::MAX] {
        assert_eq!(as_double(n as u128), n as f64 as u128, "{n}");
    }
}

#[test]
fn decimals_print_as_the_double_does() {
    for n in [0u64, 1, 51, 52, 1023, 1024, 1536, 1587, 12281, 33593, 65_535, u64::MAX] {
        let mut s = String::new();
        push_one_decimal(&mut s, n, 1024);
        assert_eq!(s, format!("{:.1}", n as f64 / 1024.0), "{n}");
        let mut s = String::new();
        push_two_decimals(&mut s, n, 1 << 30);
        assert_eq!(s, format!("{:.2}", n as f64 / (1u64 << 30) as f64), "{n}");
    }
}

#[test]
fn sizes_print_as_the_double_does() {
    for bytes in [0u64, 524_288, 524_289, 1_572_864, 2_621_440, 715_128_832, 1_073_741_823, 1_073_741_824, 1_351_614_464, u64::MAX] {
        let mib = bytes as f64 / (1024.0 * 1024.0);
        let want = if mib >= 1024.0 {
            format!("{:.2} GiB", mib / 1024.0)
        } else {
            format!("{mib:.0} MiB")
        };
        assert_eq!(format_mib(bytes), want, "{bytes}");
    }
    assert_eq!(group_thousands(0), "0");
    assert_eq!(group_thousands(999), "999");
    assert_eq!(group_thousands(1000), "1,000");
    assert_eq!(group_thousands(262_144), "262,144");
}

#[test]
fn the_log_s_size_and_age_are_in_the_largest_unit_that_fits() {
    for len in [0u64, 1023, 1024, 1536, 2560, 1_048_575, 1_048_576, 10_485_760, 123_456_789] {
        let want = match len {
            b if b < 1024 => format!("{b} B"),
            b if b < 1024 * 1024 => format!("{:.0} KB", b as f64 / 1024.0),
            b => format!("{:.1} MB", b as f64 / (1024.0 * 1024.0)),
        };
        assert_eq!(tail_status(len, None), want, "{len}");
    }
    assert_eq!(tail_status(5, Some(1)), "5 B · updated just now");
    assert_eq!(tail_status(5, Some(2)), "5 B · updated 2 s ago");
    assert_eq!(tail_status(5, Some(120)), "5 B · updated 2 min ago");
    assert_eq!(tail_status(5, Some(7200)), "5 B · updated 2 h ago");
}

#[test]
fn the_notes_on_a_live_row() {
    assert_eq!(prefill_note(0), "");
    assert_eq!(prefill_note(7), "7 prompt tokens came from the cache");
    assert_eq!(decode_note(0, 0), "");
    for (n, ok) in [
        (100i64, 74i64),
        (200, 1),
        (200, 3),
        (3, 1),
        (3, 2),
        (8, 1),
        (8, 0),
        (1000, -3),
        (3, -2),
        (i64::MAX, 1),
        (i64::MAX, i64::MAX),
        (1, i64::MAX),
        (3, i64::MIN),
        (i64::MAX - 1, 46_116_860_184_273_879),
        (7, (1 << 53) + 1),
        (200_000_000_000_001, 1_000_000_000_000),
        (9_007_199_254_740_993, 45_035_996_273_704_965),
    ] {
        assert_eq!(
            decode_note(n, ok),
            format!("draft accepted {:.0}%", 100.0 * ok as f64 / n as f64)
        );
    }
}
