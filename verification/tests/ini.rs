use llama_cpp_config::ini::{
    delete_section, read_all, read_section, reject_comment_markers, rename_section, replace_key,
    replace_section, strip_inline_comment,
};

fn value(text: &str, section: &str, key: &str) -> String {
    read_section(text, section).get(key).unwrap().to_string()
}

fn delete(text: &mut String, section: &str) {
    if let Some(rest) = delete_section(text, section) {
        *text = rest;
    }
}

#[test]
fn read_all_parses_sections_in_order() {
    let file = String::from("; file comment\r\n[Server]\r\nPort = 8080\r\n\r\n[alpha]\r\nmodel = a.gguf\r\n# comment\r\nctx-size = 4096\r\n");
    let sections = read_all(&file);
    assert_eq!(sections.len(), 2);
    assert_eq!(sections[0].id, "Server");
    assert_eq!(sections[0].keys.get("Port"), Some("8080"));
    assert_eq!(sections[1].id, "alpha");
    assert_eq!(sections[1].keys.get("ctx-size"), Some("4096"));
    assert!(!sections[1].keys.contains_key("# comment"));
}

#[test]
fn read_section_is_case_insensitive() {
    let file = String::from("[server]\r\nPort = 1234\r\n");
    assert_eq!(value(&file, "Server", "Port"), "1234");
}

#[test]
fn strip_inline_comment_cases() {
    assert_eq!(strip_inline_comment("8080 ; note"), "8080");
    assert_eq!(strip_inline_comment("8080 # note"), "8080");
    // llama-server's PEG cuts at the FIRST marker even unspaced — we must
    // read exactly what it would read, not keep a longer value it won't.
    assert_eq!(strip_inline_comment("a;b"), "a");
    assert_eq!(strip_inline_comment("x ;y"), "x");
    assert_eq!(strip_inline_comment("q8#0"), "q8");
    assert_eq!(strip_inline_comment("plain  "), "plain");
}

#[test]
fn replace_key_updates_existing_line() {
    let mut file = String::from("[Server]\r\nPort = 8080\r\nHostname = localhost\r\n");
    file = replace_key(&file, "Server", "Port", "9090");
    let keys = read_section(&file, "Server");
    assert_eq!(keys.get("Port"), Some("9090"));
    assert_eq!(keys.get("Hostname"), Some("localhost"));
}

#[test]
fn replace_key_appends_missing_key_to_section() {
    let mut file = String::from("[Server]\r\nPort = 8080\r\n\r\n[other]\r\nk = v\r\n");
    file = replace_key(&file, "Server", "ModelsDir", "C:/models");
    // Exact content: the new line slots in after the last real line, and
    // the single blank separator line stays single (the append path once
    // duplicated the terminator, growing a blank line per appended key).
    assert_eq!(
        file,
        "[Server]\r\nPort = 8080\r\nModelsDir = C:/models\r\n\r\n[other]\r\nk = v\r\n"
    );
}

// next_section_start only recognizes a header AFTER a '\n' at/beyond
// `from`, so scanning from the body start missed a neighbouring header
// sitting exactly there: appending to an empty-bodied section spliced the
// key into the NEXT section instead (and read_section still saw nothing).
#[test]
fn replace_key_respects_empty_section_body() {
    let mut file = String::from("[Server]\r\n[other]\r\nk = 2\r\n");
    file = replace_key(&file, "Server", "ModelsDir", "C:/models");
    assert_eq!(
        file,
        "[Server]\r\nModelsDir = C:/models\r\n[other]\r\nk = 2\r\n"
    );
}

// A header that is the file's last line (no terminator) used to have the
// key glued straight onto the `]`, destroying the header line.
#[test]
fn replace_key_handles_header_without_trailing_newline() {
    let mut file = String::from("[Server]");
    file = replace_key(&file, "Server", "Port", "8080");
    assert_eq!(
        file,
        "[Server]\r\nPort = 8080\r\n"
    );
}

// Replacing an UNTERMINATED final line has no ending to preserve — it
// must fall back to the file's detected EOL, not hardcode `\n` and mix
// endings into a CRLF file.
#[test]
fn replace_key_keeps_crlf_when_replacing_unterminated_last_line() {
    let mut file = String::from("[Server]\r\nModelsDir = C:/old");
    file = replace_key(&file, "Server", "ModelsDir", "C:/new");
    assert_eq!(
        file,
        "[Server]\r\nModelsDir = C:/new\r\n"
    );
}

#[test]
fn replace_key_creates_missing_section_and_file() {
    let mut file = String::new();
    file = replace_key(&file, "Server", "Port", "8080");
    assert_eq!(value(&file, "Server", "Port"), "8080");
}

#[test]
fn replace_key_matches_section_case_insensitively() {
    // A hand-edited lowercase header must not produce a duplicate section.
    let mut file = String::from("[server]\r\nPort = 8080\r\n");
    file = replace_key(&file, "Server", "Port", "9090");
    let sections = read_all(&file);
    assert_eq!(sections.len(), 1);
    assert_eq!(sections[0].keys.get("Port"), Some("9090"));
}

#[test]
fn replace_key_preserves_lf_only_files() {
    let mut file = String::from("[Server]\nPort = 8080\nHostname = localhost\n");
    file = replace_key(&file, "Server", "Hostname", "0.0.0.0");
    let content = file.clone();
    assert!(content.contains("Hostname = 0.0.0.0\n"));
    assert!(!content.contains("Hostname = 0.0.0.0\r\n"));
    // The insert path too: appending a missing key must not smuggle a CRLF
    // into an LF-only file.
    file = replace_key(&file, "Server", "ModelsDir", "C:/models");
    let content = file.clone();
    assert!(!content.contains('\r'), "LF-only file gained a CR");
    assert_eq!(value(&file, "Server", "ModelsDir"), "C:/models");
}

#[test]
fn replace_section_swaps_body_and_keeps_neighbours() {
    let mut file = String::from("[a]\r\nk = 1\r\n\r\n[b]\r\nk = 2\r\n");
    file = replace_section(&file, "a", "[a]\r\nk = 9\r\nextra = yes\r\n");
    let keys = read_section(&file, "a");
    assert_eq!(keys.get("k"), Some("9"));
    assert_eq!(keys.get("extra"), Some("yes"));
    assert_eq!(value(&file, "b", "k"), "2");
}

#[test]
fn replace_section_appends_when_missing() {
    let mut file = String::from("[a]\r\nk = 1\r\n");
    file = replace_section(&file, "b", "[b]\r\nk = 2\r\n");
    assert_eq!(value(&file, "b", "k"), "2");
    assert_eq!(value(&file, "a", "k"), "1");
}

#[test]
fn replace_section_preserves_lf_only_files() {
    let mut file = String::from("[a]\nk = 1\n");
    // Both paths — replacing an existing section and appending a new one —
    // must convert the CRLF-rendered body to the file's LF-only style.
    file = replace_section(&file, "a", "[a]\r\nk = 9\r\n");
    file = replace_section(&file, "b", "[b]\r\nk = 2\r\n");
    let content = file.clone();
    assert!(
        !content.contains('\r'),
        "LF-only file gained a CR: {content:?}"
    );
    assert_eq!(value(&file, "a", "k"), "9");
    assert_eq!(value(&file, "b", "k"), "2");
}

#[test]
fn rename_section_basic_and_conflict() {
    let mut file = String::from("[a]\r\nk = 1\r\n\r\n[b]\r\nk = 2\r\n");
    file = rename_section(&file, "a", "c").unwrap();
    assert_eq!(value(&file, "c", "k"), "1");
    assert!(rename_section(&file, "c", "b").is_err());
    assert!(rename_section(&file, "missing", "x").is_err());
}

#[test]
fn rename_section_allows_case_only_rename() {
    let mut file = String::from("[qwen]\r\nk = 1\r\n");
    file = rename_section(&file, "qwen", "Qwen").unwrap();
    let sections = read_all(&file);
    assert_eq!(sections.len(), 1);
    assert_eq!(sections[0].id, "Qwen");
}

#[test]
fn delete_section_removes_only_target() {
    let mut file = String::from("[a]\r\nk = 1\r\n\r\n[b]\r\nk = 2\r\n");
    delete(&mut file, "a");
    let sections = read_all(&file);
    assert_eq!(sections.len(), 1);
    assert_eq!(sections[0].id, "b");
    // Deleting a missing section (or from a missing file) is a no-op.
    delete(&mut file, "nope");
    delete(&mut String::new(), "a");
}

// The reader trims each line before the `[` check, so a hand-indented
// header IS a section — the writers' boundary scan must honor the same
// rule or a neighbouring rewrite silently swallows it.
#[test]
fn writers_respect_indented_section_headers() {
    let mut file = String::from("[a]\r\nk = 1\r\n  [b]\r\nk = 2\r\n");

    // Rewriting [a] must stop at the indented [b], not absorb it.
    file = replace_section(&file, "a", "[a]\r\nk = 9\r\n");
    assert_eq!(value(&file, "a", "k"), "9");
    assert_eq!(value(&file, "b", "k"), "2");

    // A key appended to [a] must land in [a], not fall through into [b].
    file = replace_key(&file, "a", "extra", "3");
    assert_eq!(value(&file, "a", "extra"), "3");
    assert!(!read_section(&file, "b").contains_key("extra"));

    // The indented header itself is addressable...
    file = replace_section(&file, "b", "[b]\r\nk = 7\r\n");
    assert_eq!(value(&file, "b", "k"), "7");

    // ...and deleting [a] leaves [b] intact.
    delete(&mut file, "a");
    let sections = read_all(&file);
    assert_eq!(sections.len(), 1);
    assert_eq!(sections[0].id, "b");
}

#[test]
fn reject_comment_markers_matches_the_strip_rule() {
    assert!(reject_comment_markers("f", r"C:\Models\plain").is_ok());
    for hostile in [r"C:\Models #1", r"C:\a;b", "x#y"] {
        let err = reject_comment_markers("ModelsDir", hostile).expect_err(hostile);
        assert!(
            err.contains("ModelsDir"),
            "error names the field"
        );
        // The guard exists precisely because the reader would truncate it.
        assert_ne!(strip_inline_comment(hostile), hostile);
    }
}

// read_all trims the NAME inside the brackets, so a hand-edited `[ a ]`
// lists as section `a`. The writers must find it there too — matching the
// whole line against `[a]` missed it, so replace_section appended a fresh
// duplicate `[a]` and every later read returned the stale first copy
// ("edits never stick").
#[test]
fn writers_respect_internal_header_whitespace() {
    let mut file = String::from("[ a ]\r\nk = 1\r\n[b]\r\nk = 2\r\n");
    assert_eq!(value(&file, "a", "k"), "1");

    // Rewrite must hit the existing `[ a ]`, never spawn a second [a]…
    file = replace_section(&file, "a", "[a]\r\nk = 9\r\n");
    let sections = read_all(&file);
    assert_eq!(sections.iter().filter(|s| s.id == "a").count(), 1);
    assert_eq!(value(&file, "a", "k"), "9");

    // …replace_key must land inside it…
    let mut file2 = String::from("[ a ]\r\nk = 1\r\n[b]\r\nk = 2\r\n");
    file2 = replace_key(&file2, "a", "extra", "3");
    assert_eq!(value(&file2, "a", "extra"), "3");
    assert!(!read_section(&file2, "b").contains_key("extra"));

    // …rename must swap the REAL `[ a ]` span (no dangling ` ]`)…
    let mut file3 = String::from("[ a ]\r\nk = 1\r\n");
    file3 = rename_section(&file3, "a", "c").unwrap();
    assert_eq!(
        file3,
        "[c]\r\nk = 1\r\n",
        "rename must replace the actual header text"
    );

    // …and delete must remove it.
    let mut file4 = String::from("[ a ]\r\nk = 1\r\n[b]\r\nk = 2\r\n");
    delete(&mut file4, "a");
    let sections = read_all(&file4);
    assert_eq!(sections.len(), 1);
    assert_eq!(sections[0].id, "b");
}
