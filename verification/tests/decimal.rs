use llama_cpp_config::bench::{decimal_number, live_body, Mode, Plan};
use llama_cpp_config::decimal::{parse_decimal, rounded_decimal, settled_decimal};
use llama_cpp_config::form::{form_to_preset, preset_to_form};
use llama_cpp_config::json::Json;
use llama_cpp_config::presets::Preset;
use llama_cpp_config::report::temperature;
use llama_cpp_config::runs::{load_run, point_json};
use llama_cpp_config::selection::{plan_from_fields, WorkloadFields};

/// The plan a user begins with, its prompt file in the configuration directory.
fn default_plan() -> Plan {
    Plan::default_at(r"C:\Users\u\AppData\Local\llama.cpp\config\bench-prompt.txt")
}

#[test]
fn every_spelling_of_a_number_is_read_as_the_double_prints() {
    for text in [
        "0", "0.0", "00", "007", "0.5", ".5", "5.", "+0.5", "00.5", "0.70", "-0.70", "-0", "+0", "-.0",
        "1e3", "1E+3", "5e-1", "12.50e1", "0.00012", "1.5e-7", "100", "100.00", "1e22", "123456789012345",
        "0.000000000000001", "1e308", "1e309", "1e310", "1e400", "-1e999999999999999999999999", "1e-330",
        "1e-99999999999999999999999999", "0e99999999999999999999999999", "1e-5", "2.5e-310", "inf", "-INF",
        "Infinity", "+infinity", "nan", "-NaN", "0.1000000000000000055511151231257827", "0.30000000000000004",
        "123456789012345678901234567890", "9007199254740993", "0.12345678901234567890", "1.7976931348623157e308",
        "1.7976931348623159e308", "1.8e308", "-9.9e308", "2e-324", "3e-324", "-2.4e-324", "2.2250738585072011e-308",
        "1234567890123456.7", "2e23", "9e-265", "9.5367431640625e-7", "1.00000762939453125",
        "-1.00000762939453125", "1.0000076293945312", "1.0000076293945313", "1.00002288818359375",
        "1125899906842624.25", "1125899906842624.75", "562949953421312.25", "70368744177664.125",
        "0.500003814697265625",
    ] {
        let want = text.parse::<f64>().unwrap().to_string();
        assert_eq!(parse_decimal(text).as_deref(), Some(want.as_str()), "{text}");
        assert_eq!(parse_decimal(&want).as_deref(), Some(want.as_str()), "{text}");
    }
}

/// Doubles of every size, and doubles halfway between two numerals, which are shown by
/// the one further from zero.
#[test]
fn every_double_is_read_as_it_prints() {
    let mut seed: u64 = 0x9e37_79b9_7f4a_7c15;
    let mut ties = 0;
    for i in 0..3000 {
        seed = seed.wrapping_mul(6364136223846793005).wrapping_add(1442695040888963407);
        let x = if i % 2 == 0 {
            f64::from_bits(seed)
        } else {
            let odd = (seed >> 11) | 1;
            odd as f64 / 2f64.powi((seed >> 3) as i32 % 70)
        };
        if !x.is_finite() {
            continue;
        }
        let want = x.to_string();
        assert_eq!(parse_decimal(&want).as_deref(), Some(want.as_str()), "{x:e}");
        let exact = format!("{x:.80}");
        if x.abs() < 1e17 && x.abs() > 1e-3 {
            assert_eq!(parse_decimal(&exact).as_deref(), Some(want.as_str()), "{x:e}");
        }
        let digits = exact.trim_end_matches('0');
        if digits.len() == want.len() + 1 && digits.ends_with('5') && want.contains('.') {
            ties += 1;
        }
    }
    assert!(ties > 10, "{ties}");
}

/// Which of two numerals is shown depends on the one above being the same double.
#[test]
fn a_double_halfway_between_two_numerals_is_shown_by_the_higher() {
    let read = |s: &str| Some(Json::Number(None, s.to_string()));
    let low = "1.0000076293945312";
    let high = "1.0000076293945313";
    assert_eq!(settled_decimal(low, &read(low)), high);
    assert_eq!(settled_decimal(low, &read(high)), low);
    assert_eq!(settled_decimal(low, &None), low);
    assert_eq!(settled_decimal("0.2", &read("0.2")), "0.3");
    assert_eq!(settled_decimal("0.3", &read("0.3")), "0.3");
    assert_eq!(settled_decimal("inf", &read("inf")), "inf");
    assert_eq!(rounded_decimal("0.5", &read("5e-1")), "0.5");
    assert_eq!(rounded_decimal("-1", &None), "-inf");
}

#[test]
fn what_is_no_number_is_refused() {
    for text in ["", ".", "+", "-", "e5", "1e", "1e+", "1.2.3", "1 2", "--1", "0x10", "1_000", "abc", "infin"] {
        assert!(text.parse::<f64>().is_err());
        assert_eq!(parse_decimal(text), None, "{text}");
    }
    assert_eq!(parse_decimal("0,5").as_deref(), Some("0.5"));
    assert_eq!(parse_decimal("1,25").as_deref(), Some("1.25"));
    assert_eq!(parse_decimal("  0,7  ").as_deref(), Some("0.7"));
}

#[test]
fn a_temperature_is_sent_and_reported_as_the_same_number() {
    let fields = |temp: &str| WorkloadFields {
        mode: "live".into(),
        reps: "1".into(),
        temp: temp.into(),
        temp_default: false,
        max_tokens: "".into(),
        prompt_lens: "".into(),
        depths: "".into(),
        n_gen: "".into(),
    };
    for (typed, want) in [
        (".5", "0.5"),
        ("5.", "5"),
        ("+0.5", "0.5"),
        ("00.5", "0.5"),
        ("0.70", "0.7"),
        ("007", "7"),
        ("0,25", "0.25"),
    ] {
        let plan = plan_from_fields(&fields(typed), &vec!["a".to_string()], "hi", "p.txt");
        assert_eq!(plan.mode, Mode::Live);
        assert_eq!(plan.temp.as_deref(), Some(want), "{typed}");
        assert_eq!(temperature(&plan.temp), want);
        let body: serde_json::Value = serde_json::from_str(&live_body("a", &plan)).unwrap();
        assert_eq!(body["temperature"].as_f64(), Some(want.parse().unwrap()), "{typed}");
    }
    let plan = Plan { temp: Some("inf".into()), ..default_plan() };
    let body: serde_json::Value = serde_json::from_str(&live_body("a", &plan)).unwrap();
    assert!(body["temperature"].is_null());
}

#[test]
fn a_saved_preset_holds_the_number_and_not_its_spelling() {
    let mut form = preset_to_form(&Preset::default());
    form.temp = "0.70".into();
    form.temp_default = false;
    form.top_p = ".9".into();
    form.top_p_default = false;
    let p = form_to_preset(&form);
    assert_eq!(p.temp.as_deref(), Some("0.7"));
    assert_eq!(p.top_p.as_deref(), Some("0.9"));
    assert_eq!(preset_to_form(&p).temp, "0.7");
}

#[test]
fn rates_are_written_to_the_last_digit() {
    for x in [51.248178375505404f64, 0.1, 1e-7, 123.0, 9007199254740993.0, 2.2250738585072014e-308] {
        let text = format!("{x:?}");
        assert!(matches!(decimal_number(&text), Json::Number(None, _)));
        let line = point_json(&llama_cpp_config::bench::Measured {
            preset: "a".into(),
            test: "decode".into(),
            mean: text.clone(),
            sd: "NaN".into(),
            n: 1,
            note: String::new(),
        });
        let read: serde_json::Value = serde_json::from_str(&line).unwrap();
        assert_eq!(read["mean"].as_f64(), Some(x), "{text}");
        assert!(read["sd"].is_null());
        let run = load_run(&line);
        assert_eq!(run.points[0].mean.parse::<f64>(), Ok(x));
        assert_eq!(run.points[0].sd, "0");
    }
}
