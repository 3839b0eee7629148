use ansible_decryptor::credentials::{
    collect_credentials, helper_password, parse_identity, parse_identity_list, plan_sources,
    split_at_char, trim_str, CredentialError, CredentialSource,
};

fn describe(s: &CredentialSource) -> String {
    match s {
        CredentialSource::EnvironmentVariable(v) => format!("var:{v}"),
        CredentialSource::EnvironmentVariableFile(p) => format!("file:{p}"),
        CredentialSource::DefaultFile(p) => format!("default:{p}"),
        CredentialSource::IdentityListEntry(l, p) => format!("id:{l}@{p}"),
    }
}

fn describe_all(v: &[CredentialSource]) -> Vec<String> {
    v.iter().map(describe).collect()
}

fn some(s: &str) -> Option<String> {
    Some(s.to_string())
}

#[test]
fn identity_list_entries_in_order() {
    let list = parse_identity_list("wrongId@wrongfile, rightId@rightfile");
    assert_eq!(describe_all(&list), vec!["id:wrongId@wrongfile", "id:rightId@rightfile"]);
}

#[test]
fn identity_list_skips_bad_entries() {
    let list = parse_identity_list(" a@x ,@y,nolabel, ,b@c@d,");
    assert_eq!(describe_all(&list), vec!["id:a@x", "id:b@c@d"]);
    assert!(parse_identity_list("").is_empty());
}

#[test]
fn identity_entry_is_trimmed() {
    let e = parse_identity("  test1@tests/fixtures/vault_password_exec ").unwrap();
    assert_eq!(describe(&e), "id:test1@tests/fixtures/vault_password_exec");
    assert!(parse_identity("@path").is_none());
    assert!(parse_identity("plain").is_none());
}

#[test]
fn split_and_trim() {
    assert_eq!(split_at_char("a,,b", ','), vec!["a", "", "b"]);
    assert_eq!(split_at_char("", ','), vec![""]);
    assert_eq!(trim_str("  x y \t"), "x y");
    assert_eq!(trim_str("   "), "");
}

#[test]
fn sources_follow_fixed_order() {
    let s = plan_sources(some("pw"), some("/f"), some("/home/.vault_pass"), some("a@one,b@two"));
    assert_eq!(describe_all(&s), vec!["var:pw", "file:/f", "id:a@one", "id:b@two"]);
}

#[test]
fn default_file_only_without_password_file() {
    let s = plan_sources(None, None, some("/home/.vault_pass"), None);
    assert_eq!(describe_all(&s), vec!["default:/home/.vault_pass"]);
    assert!(plan_sources(None, None, None, None).is_empty());
}

#[test]
fn identity_failures_are_skipped() {
    let sources = parse_identity_list("wrongId@wrongfile, rightId@rightfile");
    let outcomes = vec![Err(CredentialError::FileUnreadable("gone".to_string())), Ok("right".to_string())];
    let creds = collect_credentials(&sources, &outcomes).ok().unwrap();
    assert_eq!(creds, vec!["right"]);
}

#[test]
fn password_file_failure_is_fatal() {
    let sources = plan_sources(some("pw"), some("/f"), None, some("a@p"));
    let outcomes = vec![
        Ok("pw".to_string()),
        Err(CredentialError::ProcessFailed("boom".to_string())),
        Ok("other".to_string()),
    ];
    match collect_credentials(&sources, &outcomes) {
        Err(CredentialError::ProcessFailed(m)) => assert_eq!(m, "boom"),
        _ => panic!("expected the helper's failure"),
    }
}

#[test]
fn all_sources_are_kept_in_order() {
    let sources = plan_sources(some("pw"), some("/f"), None, some("a@p"));
    let outcomes = vec![Ok("pw".to_string()), Ok("filepw".to_string()), Ok("idpw".to_string())];
    let creds = collect_credentials(&sources, &outcomes).ok().unwrap();
    assert_eq!(creds, vec!["pw", "filepw", "idpw"]);
}

#[test]
fn empty_passwords_are_skipped() {
    let sources = plan_sources(some(""), None, None, some("a@p"));
    let outcomes = vec![Ok(String::new()), Ok("x".to_string())];
    assert_eq!(collect_credentials(&sources, &outcomes).ok().unwrap(), vec!["x"]);
}

#[test]
fn nothing_found_is_an_error() {
    let sources = plan_sources(some(""), None, None, some("a@p"));
    let outcomes = vec![Ok(String::new()), Err(CredentialError::FileUnreadable("no".to_string()))];
    assert!(matches!(collect_credentials(&sources, &outcomes), Err(CredentialError::NoCredentialFound)));
    assert!(matches!(collect_credentials(&Vec::new(), &Vec::new()), Err(CredentialError::NoCredentialFound)));
}

#[test]
fn helper_output_first_line() {
    assert_eq!(helper_password(true, "testing123\nmore\n", "").ok().unwrap(), "testing123");
    assert_eq!(helper_password(true, "", "").ok().unwrap(), "");
    match helper_password(false, "x", "bad things\n") {
        Err(CredentialError::ProcessFailed(m)) => assert_eq!(m, "bad things\n"),
        _ => panic!("expected a failure"),
    }
}

#[test]
fn error_duplicate_keeps_message() {
    match CredentialError::FileUnreadable("m".to_string()).duplicate() {
        CredentialError::FileUnreadable(m) => assert_eq!(m, "m"),
        _ => panic!("wrong variant"),
    }
}
