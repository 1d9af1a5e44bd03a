use llama_cpp_config::pathname::{file_name, normalize, strip_extended_prefix, Part};

#[test]
fn the_last_name_of_a_path() {
    for (path, name) in [
        (r"C:\m\a.gguf", Some("a.gguf")),
        ("C:/m/a.gguf", Some("a.gguf")),
        ("a.gguf", Some("a.gguf")),
        (r"C:\m\dir\", Some("dir")),
        (r"C:\m\.", Some("m")),
        (r"C:\m\..", None),
        (r"C:\", None),
        ("C:", None),
        ("C:a.gguf", Some("a.gguf")),
        ("", None),
        (".", None),
        ("..", None),
        (r"\\server\share\a.gguf", Some("a.gguf")),
        (r"\\server\share", None),
        (r"\\?\C:\m\a.gguf", Some("a.gguf")),
    ] {
        assert_eq!(file_name(path).as_deref(), name, "{path}");
    }
}

#[test]
fn the_extended_prefix_goes_unless_it_names_a_share() {
    assert_eq!(strip_extended_prefix(r"\\?\C:\bin\x.exe"), r"C:\bin\x.exe");
    assert_eq!(
        strip_extended_prefix(r"\\?\UNC\server\x.exe"),
        r"\\?\UNC\server\x.exe"
    );
    assert_eq!(strip_extended_prefix(r"C:\bin\x.exe"), r"C:\bin\x.exe");
}

#[test]
fn dots_are_resolved_without_climbing_out_of_the_root() {
    let name = |s: &str| Part::Name(s.to_string());
    let root = || Part::Root("C:\\".to_string());
    assert_eq!(
        normalize(vec![root(), name("a"), Part::Current, name("b"), Part::Parent, name("c")]),
        vec![root(), name("a"), name("c")]
    );
    assert_eq!(
        normalize(vec![root(), Part::Parent, name("a")]),
        vec![root(), name("a")]
    );
    assert_eq!(normalize(vec![Part::Parent]), Vec::new());
}
