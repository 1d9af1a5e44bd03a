use llama_cpp_config::text::{
    dec_str, entries_of, from_chars, int_str, join_strs, lines_of, list_has, push_padded, read_int,
    read_nat, replaced_all, same_ignore_case, split_on, str_contains, str_less, to_chars,
    to_lower_all, tokens_of, trim_str,
};

fn chars(s: &str) -> Vec<char> {
    to_chars(s)
}

fn texts(v: Vec<&[char]>) -> Vec<String> {
    v.into_iter().map(from_chars).collect()
}

#[test]
fn trimming_takes_every_white_space_that_rust_knows() {
    for s in ["", " ", "\t x \r\n", "\u{a0}x\u{2003}", "\u{feff}x", "\u{85}a b\u{3000}"] {
        assert_eq!(trim_str(s), s.trim(), "{s:?}");
    }
}

#[test]
fn words_are_split_as_rust_splits_them() {
    for s in ["", "  ", "a", " a  b\tc\u{2003}d ", "HTTP/1.1 200 OK"] {
        let want: Vec<&str> = s.split_whitespace().collect();
        assert_eq!(texts(tokens_of(&chars(s))), want, "{s:?}");
    }
}

#[test]
fn lines_are_split_as_rust_splits_them() {
    for s in ["", "\n", "a", "a\n", "a\r\nb\r", "\r\n\r\n", "a\n\nb\rc\n"] {
        let want: Vec<&str> = s.lines().collect();
        assert_eq!(texts(lines_of(&chars(s))), want, "{s:?}");
    }
}

#[test]
fn separated_lists_split_and_join() {
    assert_eq!(texts(split_on(&chars("a,,b"), ',')), ["a", "", "b"]);
    assert_eq!(texts(split_on(&chars(""), ',')), [""]);
    assert_eq!(texts(entries_of(&chars(" a, ,b ,"), ',')), ["a", "b"]);
    let v: Vec<String> = vec!["a".into(), "b".into()];
    assert_eq!(join_strs(&v, ", "), "a, b");
    assert_eq!(join_strs(&Vec::new(), ", "), "");
    assert!(list_has(&v, "b") && !list_has(&v, "B"));
}

#[test]
fn numerals_are_read_as_rust_reads_them() {
    for s in ["0", "-0", "+7", "007", "-12", "2147483647", "2147483648", "-2147483648", "", "+", "-", "1 ", "1.0", "x"] {
        let want: Option<i64> = s.parse::<i32>().ok().map(i64::from);
        assert_eq!(
            read_int(&chars(s), i32::MIN as i64, i32::MAX as i64),
            want,
            "{s:?}"
        );
        let want: Option<u64> = s.parse::<u16>().ok().map(u64::from);
        assert_eq!(read_nat(&chars(s), u16::MAX as u64), want, "{s:?}");
    }
    assert_eq!(read_int(&chars("9223372036854775807"), i64::MIN, i64::MAX), Some(i64::MAX));
    assert_eq!(read_int(&chars("9223372036854775808"), i64::MIN, i64::MAX), None);
    assert_eq!(read_int(&chars("-9223372036854775808"), i64::MIN, i64::MAX), Some(i64::MIN));
}

#[test]
fn numerals_are_written_as_rust_writes_them() {
    for n in [0u64, 9, 10, 12345, u64::MAX] {
        assert_eq!(dec_str(n), n.to_string());
    }
    for n in [0i64, -1, 99, i64::MIN, i64::MAX] {
        assert_eq!(int_str(n), n.to_string());
    }
    let mut s = String::new();
    push_padded(&mut s, 7, 4);
    push_padded(&mut s, 12345, 4);
    assert_eq!(s, "000712345");
}

#[test]
fn replacing_takes_the_leftmost_match_each_time() {
    assert_eq!(replaced_all(&chars("aaa"), "aa", "b"), "aaa".replace("aa", "b"));
    assert_eq!(replaced_all(&chars("a\r\nb"), "\r\n", "\n"), "a\nb");
}

#[test]
fn texts_compare_as_rust_compares_them() {
    let all = ["", "a", "ab", "b", "é", "z", "\u{1F600}", "A"];
    for a in all {
        for b in all {
            assert_eq!(str_less(a, b), a < b, "{a:?} {b:?}");
            assert_eq!(str_contains(a, b), a.contains(b), "{a:?} {b:?}");
            assert_eq!(
                same_ignore_case(&chars(a), &chars(b)),
                a.eq_ignore_ascii_case(b),
                "{a:?} {b:?}"
            );
        }
        assert_eq!(from_chars(&to_lower_all(&chars(a))), a.to_ascii_lowercase());
    }
}
