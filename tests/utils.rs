use ovos_bus::utils::{is_comment, remove_comments};

#[test]
fn comment_lines_are_removed() {
    let text = "websocket:\n  // the host\n  host: a\n// end";
    assert_eq!(remove_comments(text), "websocket:\n  host: a");
}

#[test]
fn crlf_endings_become_newlines() {
    assert_eq!(remove_comments("a\r\n//x\r\nb\r\n"), "a\nb");
}

#[test]
fn empty_text_stays_empty() {
    assert_eq!(remove_comments(""), "");
    assert_eq!(remove_comments("// only"), "");
}

#[test]
fn slashes_inside_a_line_are_kept() {
    assert_eq!(remove_comments("url: http://x\n"), "url: http://x");
    assert_eq!(remove_comments("/ /\n\n"), "/ /\n");
}

#[test]
fn comment_detection_skips_leading_white_space() {
    assert!(is_comment("\t  // x"));
    assert!(is_comment("\u{3000}//"));
    assert!(!is_comment("  /"));
    assert!(!is_comment("x //"));
}
