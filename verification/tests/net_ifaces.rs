use llama_cpp_config::net_ifaces::{
    build_rows, join_hosts, parse_hosts, toggle, BindOption, BindRow, ALL_INTERFACES,
};

fn iface(value: &str) -> BindOption {
    BindOption {
        label: format!("{value} (eth0, {value}/24)"),
        value: value.to_string(),
    }
}

fn checked(rows: &[BindRow]) -> Vec<&str> {
    rows.iter()
        .filter(|r| r.checked)
        .map(|r| r.value.as_str())
        .collect()
}

#[test]
fn parse_hosts_mirrors_llama_cpp_csv_handling() {
    assert_eq!(parse_hosts(" a , ,b,"), vec!["a", "b"]);
    assert!(parse_hosts("  ").is_empty());
    assert_eq!(join_hosts(&parse_hosts("a, b")), "a,b");
}

#[test]
fn build_rows_defaults_to_localhost_when_empty() {
    let rows = build_rows(&[], "");
    assert_eq!(checked(&rows), vec!["localhost"]);
    assert!(rows.iter().all(|r| r.enabled));
}

#[test]
fn build_rows_checks_every_listed_address() {
    let ifaces = [iface("192.168.1.10"), iface("10.0.0.2")];
    let rows = build_rows(&ifaces, "localhost,10.0.0.2");
    assert_eq!(rows.len(), 4); // 2 fixed rows + 2 interfaces
    assert_eq!(checked(&rows), vec!["localhost", "10.0.0.2"]);
}

#[test]
fn build_rows_all_interfaces_disables_the_rest() {
    let rows = build_rows(&[iface("192.168.1.10")], "0.0.0.0");
    assert_eq!(checked(&rows), vec!["0.0.0.0"]);
    for r in &rows {
        assert_eq!(r.enabled, r.value == ALL_INTERFACES, "{}", r.value);
    }
}

#[test]
fn build_rows_matches_current_case_insensitively() {
    let rows = build_rows(&[], "Localhost");
    assert_eq!(checked(&rows), vec!["localhost"]);
    assert!(!rows.iter().any(|r| r.label.contains("no longer present")));
}

#[test]
fn build_rows_preserves_stale_values_after_fixed_rows() {
    let rows = build_rows(&[iface("192.168.1.10")], "192.168.1.10,10.0.0.5,10.0.0.6");
    assert_eq!(rows[2].value, "10.0.0.5");
    assert_eq!(rows[3].value, "10.0.0.6");
    assert!(rows[2].label.contains("no longer present") && rows[2].checked);
    assert_eq!(rows[4].value, "192.168.1.10");
    assert!(rows[4].checked);
}

#[test]
fn toggle_adds_and_removes_addresses() {
    assert_eq!(toggle("localhost", "192.168.1.10"), "localhost,192.168.1.10");
    assert_eq!(toggle("localhost,192.168.1.10", "localhost"), "192.168.1.10");
    // Unchecking the last address falls back to the default.
    assert_eq!(toggle("192.168.1.10", "192.168.1.10"), "localhost");
    assert_eq!(toggle("Localhost", "localhost"), "localhost");
}

#[test]
fn toggle_keeps_all_interfaces_exclusive() {
    assert_eq!(toggle("localhost,192.168.1.10", ALL_INTERFACES), ALL_INTERFACES);
    assert_eq!(toggle(ALL_INTERFACES, "localhost"), "localhost");
    assert_eq!(toggle(ALL_INTERFACES, ALL_INTERFACES), "localhost");
}
