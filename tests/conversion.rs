use ansible_decryptor::convert::convert_lines;
use ansible_decryptor::render::render_block;
use ansible_decryptor::vault::{decode_plaintext, decrypt_data, DecryptError};

fn strings(lines: &[&str]) -> Vec<String> {
    lines.iter().map(|l| l.to_string()).collect()
}

/// The lines of a vault block body for `plain`, each indented by `indent`.
fn vault_body(plain: &[u8], password: &str, indent: &str) -> Vec<String> {
    let text = ansible_vault::encrypt_vault(plain, password).unwrap();
    text.lines().map(|l| format!("{indent}{l}")).collect()
}

fn document(header: &str, body: Vec<String>, after: &[&str]) -> Vec<String> {
    let mut doc = vec![header.to_string()];
    doc.extend(body);
    doc.extend(strings(after));
    doc
}

#[test]
fn document_without_blocks_is_unchanged() {
    let doc = strings(&["a: 1", "b:", "  - c", "", "d: '!vault'", "e: !vault"]);
    let out = convert_lines(&doc, &strings(&["pw"])).unwrap();
    assert_eq!(out, doc);
}

#[test]
fn empty_document_stays_empty() {
    let out = convert_lines(&Vec::new(), &strings(&["pw"])).unwrap();
    assert!(out.is_empty());
}

#[test]
fn one_line_plaintext_goes_inline() {
    let doc = document("name: !vault |", vault_body(b"bob", "pw", "  "), &["next: 2"]);
    let out = convert_lines(&doc, &strings(&["pw"])).unwrap();
    assert_eq!(out, strings(&["name: bob", "next: 2"]));
}

#[test]
fn one_line_plaintext_with_line_ending_goes_inline() {
    let doc = document("name: !vault |", vault_body(b"bob\n", "pw", "  "), &[]);
    let out = convert_lines(&doc, &strings(&["pw"])).unwrap();
    assert_eq!(out, strings(&["name: bob"]));
}

#[test]
fn empty_plaintext_becomes_empty_scalar() {
    let doc = document("  key: !vault |", vault_body(b"", "pw", "    "), &[]);
    let out = convert_lines(&doc, &strings(&["pw"])).unwrap();
    assert_eq!(out, strings(&["  key: ''"]));
}

#[test]
fn many_line_plaintext_reopens_block() {
    let doc = document("  key: !vault |", vault_body(b"first\nsecond\nthird", "pw", "    "), &["x: y"]);
    let out = convert_lines(&doc, &strings(&["pw"])).unwrap();
    assert_eq!(out, strings(&["  key: |", "    first", "    second", "    third", "x: y"]));
}

#[test]
fn round_trip_reproduces_plaintext() {
    let plain = "user: admin\npassword: password123\n";
    let doc = document("config: !vault |", vault_body(plain.as_bytes(), "supersecret", "      "), &[]);
    let out = convert_lines(&doc, &strings(&["supersecret"])).unwrap();
    let lines: Vec<&str> = out[1..].iter().map(|l| l.trim_start()).collect();
    assert_eq!(lines.join("\n") + "\n", plain);
    assert_eq!(out[0], "config: |");
}

#[test]
fn later_credential_opens_block() {
    let doc = document("name: !vault |", vault_body(b"bob", "right", "  "), &[]);
    let out = convert_lines(&doc, &strings(&["wrong", "right"])).unwrap();
    assert_eq!(out, strings(&["name: bob"]));
}

#[test]
fn inline_scenario_with_password_file_credential() {
    let doc = document("name: !vault |", vault_body(b"supersecret", "testing123", "          "), &[]);
    assert!(doc.len() >= 3);
    let out = convert_lines(&doc, &strings(&["testing123"])).unwrap();
    assert_eq!(out, strings(&["name: supersecret"]));
    assert!(!out.iter().any(|l| l.contains("$ANSIBLE_VAULT")));
}

#[test]
fn wrong_password_fails_decryption() {
    let doc = document("name: !vault |", vault_body(b"bob", "right", "  "), &["a: b"]);
    let r = convert_lines(&doc, &strings(&["wrongpassword"]));
    assert_eq!(r, Err(DecryptError::DecryptionFailed));
}

#[test]
fn no_credentials_fail_decryption() {
    let doc = document("name: !vault |", vault_body(b"bob", "right", "  "), &[]);
    assert_eq!(convert_lines(&doc, &Vec::new()), Err(DecryptError::DecryptionFailed));
}

#[test]
fn invalid_utf8_plaintext_is_refused() {
    let doc = document("name: !vault |", vault_body(&[0xff, 0xfe, 0x41], "pw", "  "), &[]);
    assert_eq!(convert_lines(&doc, &strings(&["pw"])), Err(DecryptError::EncodingInvalid));
}

#[test]
fn blocks_keep_their_order_and_surroundings() {
    let mut doc = strings(&["top: 1"]);
    doc.push("users:".to_string());
    doc.push("  - name: !vault |".to_string());
    doc.extend(vault_body(b"bob", "pw", "      "));
    doc.push("  - pass: !vault |".to_string());
    doc.extend(vault_body(b"password123", "pw", "      "));
    doc.push("end: 2".to_string());
    let out = convert_lines(&doc, &strings(&["pw"])).unwrap();
    assert_eq!(
        out,
        strings(&["top: 1", "users:", "  - name: bob", "  - pass: password123", "end: 2"])
    );
}

#[test]
fn blank_line_inside_body_is_kept_in_block() {
    let mut body = vault_body(b"bob", "pw", "  ");
    body.insert(2, String::new());
    let doc = document("name: !vault |", body, &["", "after: 1"]);
    let out = convert_lines(&doc, &strings(&["pw"])).unwrap();
    assert_eq!(out, strings(&["name: bob", "", "after: 1"]));
}

#[test]
fn decrypt_data_returns_plaintext() {
    let text = ansible_vault::encrypt_vault(&b"hello"[..], "k").unwrap();
    assert_eq!(decrypt_data(&text, &strings(&["x", "k"])), Ok("hello".to_string()));
    assert_eq!(decrypt_data(&text, &strings(&["x"])), Err(DecryptError::DecryptionFailed));
    assert_eq!(decrypt_data("not a vault\n", &strings(&["k"])), Err(DecryptError::DecryptionFailed));
}

#[test]
fn decode_plaintext_checks_utf8() {
    assert_eq!(decode_plaintext("h\u{e9}".as_bytes().to_vec()), Ok("h\u{e9}".to_string()));
    assert_eq!(decode_plaintext(vec![0xc3]), Err(DecryptError::EncodingInvalid));
}

#[test]
fn render_block_styles() {
    assert_eq!(render_block("k:", 0, ""), strings(&["k: ''"]));
    assert_eq!(render_block("k:", 0, "v"), strings(&["k: v"]));
    assert_eq!(render_block("k:", 0, "v\r\n"), strings(&["k: v"]));
    assert_eq!(render_block("  - k:", 2, "a\nb"), strings(&["  - k: |", "    a", "    b"]));
    assert_eq!(render_block("k:", 1, "a\n\nb\n"), strings(&["k: |", "   a", "   ", "   b"]));
}
