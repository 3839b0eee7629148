use ansible_decryptor::scan::{block_end, body_ciphertext, line_is_blank, parse_header, scan_block};
use ansible_decryptor::text::{
    is_whitespace, leading_whitespace, split_lines, trim_end_at,
};

fn strings(lines: &[&str]) -> Vec<String> {
    lines.iter().map(|l| l.to_string()).collect()
}

#[test]
fn header_with_key() {
    let h = parse_header("name: !vault |").unwrap();
    assert_eq!(h.pre_text, "name:");
    assert_eq!(h.base_indent, 0);
}

#[test]
fn header_with_list_marker_and_spacing() {
    let h = parse_header("  - item:   !vault   |  ").unwrap();
    assert_eq!(h.pre_text, "  - item:");
    assert_eq!(h.base_indent, 2);
}

#[test]
fn header_with_unicode_indentation() {
    let h = parse_header("\u{3000} k: !vault |").unwrap();
    assert_eq!(h.pre_text, "\u{3000} k:");
    assert_eq!(h.base_indent, 2);
}

#[test]
fn lines_that_are_no_header() {
    assert!(parse_header("name: value").is_none());
    assert!(parse_header("name: !vault").is_none());
    assert!(parse_header("name: !Vault |").is_none());
    assert!(parse_header("name: vault |").is_none());
    assert!(parse_header("name: |").is_none());
    assert!(parse_header("").is_none());
    assert!(parse_header("|").is_none());
}

#[test]
fn block_stops_at_shallower_line() {
    let doc = strings(&["k: !vault |", "  aa", "   bb", "x: 1", "  cc"]);
    assert_eq!(block_end(&doc, 1, 0), 3);
    assert_eq!(body_ciphertext(&doc, 1, 3), "aa\nbb\n");
}

#[test]
fn block_runs_to_document_end() {
    let doc = strings(&["  k: !vault |", "    aa", "    bb"]);
    assert_eq!(block_end(&doc, 1, 2), 3);
}

#[test]
fn blank_lines_belong_to_block_only_when_it_goes_on() {
    let doc = strings(&["k: !vault |", "  aa", "", "  ", "  bb", "", "x: 1"]);
    assert_eq!(block_end(&doc, 1, 0), 5);
    assert_eq!(body_ciphertext(&doc, 1, 5), "aa\n\n\nbb\n");
    let trailing = strings(&["k: !vault |", "  aa", "", "   "]);
    assert_eq!(block_end(&trailing, 1, 0), 2);
}

#[test]
fn empty_body() {
    let doc = strings(&["k: !vault |", "x: 1"]);
    assert_eq!(block_end(&doc, 1, 0), 1);
    assert_eq!(body_ciphertext(&doc, 1, 1), "");
}

#[test]
fn scan_block_reads_header_and_body() {
    let doc = strings(&["a: 1", "  k: !vault |", "      $ANSIBLE_VAULT;1.1;AES256", "      3132", "  z: 2"]);
    assert!(scan_block(&doc, 0).is_none());
    let b = scan_block(&doc, 1).unwrap();
    assert_eq!(b.pre_text, "  k:");
    assert_eq!(b.base_indent, 2);
    assert_eq!(b.ciphertext, "$ANSIBLE_VAULT;1.1;AES256\n3132\n");
    assert_eq!(b.end, 4);
}

#[test]
fn whitespace_classes() {
    assert!(is_whitespace(' '));
    assert!(is_whitespace('\t'));
    assert!(is_whitespace('\u{3000}'));
    assert!(is_whitespace('\u{85}'));
    assert!(!is_whitespace('a'));
    assert!(!is_whitespace('\u{200b}'));
    assert!(line_is_blank(""));
    assert!(line_is_blank(" \t "));
    assert!(!line_is_blank("  x"));
}

#[test]
fn indentation_and_trimming() {
    assert_eq!(leading_whitespace("   abc "), 3);
    assert_eq!(leading_whitespace(""), 0);
    assert_eq!(trim_end_at("abc  \t", 6), 3);
    assert_eq!(trim_end_at("ab  cd", 4), 2);
}

#[test]
fn split_lines_like_str_lines() {
    assert_eq!(split_lines(""), Vec::<String>::new());
    assert_eq!(split_lines("\n"), strings(&[""]));
    assert_eq!(split_lines("a\r\nb\n"), strings(&["a", "b"]));
    assert_eq!(split_lines("a\n\nb"), strings(&["a", "", "b"]));
    assert_eq!(split_lines("a\r"), strings(&["a\r"]));
}
