use hermes::cmd::{
    code_from_decoding, effective_password, seconds_left_in_period, ls, progress_bar, sanitize_and_validate_code, status_line,
    table_header, table_output, table_row, validate_add, validate_update,
};
use hermes::models::Record;

fn rec(alias: &str, is_unencrypted: bool) -> Record {
    Record {
        alias: alias.to_string(),
        secret: "JBSWY3DPEHPK3PXP".to_string(),
        is_unencrypted,
        algorithm: "sha1".to_string(),
        digits: 6,
        period: 30,
        created_at: 1,
    }
}

#[test]
fn sanitize_uppercases_and_drops_padding() {
    assert_eq!(sanitize_and_validate_code("jbswy3dpehpk3pxp").unwrap(), "JBSWY3DPEHPK3PXP");
    assert_eq!(sanitize_and_validate_code("MZXW6===").unwrap(), "MZXW6");
}

#[test]
fn sanitize_rejects_invalid_base32() {
    let err = sanitize_and_validate_code("JBSWY3D1").unwrap_err();
    assert_eq!(err, "Invalid Base32 code: invalid symbol at 7");
    let err = sanitize_and_validate_code("A").unwrap_err();
    assert!(err.starts_with("Invalid Base32 code: invalid length"));
}

#[test]
fn password_given_then_environment() {
    assert_eq!(effective_password(&Some("p".to_string()), Some("e".to_string())), Some("p".to_string()));
    assert_eq!(effective_password(&None, Some("e".to_string())), Some("e".to_string()));
    assert_eq!(effective_password(&None, None), None);
}

#[test]
fn add_checks_in_order() {
    let codex: Result<Vec<Record>, String> = Ok(vec![rec("gh", true)]);
    assert!(validate_add("new", "bad!", &codex).unwrap_err().starts_with("Invalid Base32 code"));
    assert_eq!(validate_add("a:b", "jbswy3dp", &codex).unwrap_err(), "Error: Alias cannot contain ':'");
    assert_eq!(validate_add("gh", "jbswy3dp", &codex).unwrap_err(), "Error: Alias 'gh' already exists.");
    assert_eq!(validate_add("new", "jbswy3dp", &codex).unwrap(), "JBSWY3DP");
    let missing: Result<Vec<Record>, String> = Err("Codex not found.".to_string());
    assert_eq!(validate_add("gh", "jbswy3dp", &missing).unwrap(), "JBSWY3DP");
}

#[test]
fn update_needs_existing_alias() {
    let codex: Result<Vec<Record>, String> = Ok(vec![rec("gh", true)]);
    assert_eq!(validate_update("zz", "jbswy3dp", &codex).unwrap_err(), "No record for 'zz' found.");
    assert_eq!(validate_update("gh", "jbswy3dp=", &codex).unwrap(), "JBSWY3DP");
}

#[test]
fn ls_filters_case_insensitively() {
    let rs = vec![rec("GitHub", true), rec("gitlab", false), rec("Bank", true)];
    let l = ls(&rs, &Some("GIT".to_string()), false, false).unwrap();
    assert_eq!(l.selected, vec![0, 1]);
    assert!(l.needs_password);
    let l = ls(&rs, &Some("github".to_string()), false, true).unwrap();
    assert_eq!(l.selected, vec![0]);
    assert!(!l.needs_password);
    let l = ls(&rs, &None, true, false).unwrap();
    assert_eq!(l.selected, vec![0, 1, 2]);
    assert!(!l.needs_password);
}

#[test]
fn ls_reports_nothing_found() {
    let rs = vec![rec("GitHub", true)];
    assert_eq!(ls(&rs, &Some("git".to_string()), false, true).unwrap_err(), "No record found with exact alias 'git'");
    assert_eq!(ls(&rs, &Some("bank".to_string()), false, false).unwrap_err(), "No records found matching 'bank'");
    assert_eq!(ls(&vec![], &None, false, false).unwrap_err(), "No records found");
}

#[test]
fn progress_bar_fills_with_time_left() {
    assert_eq!(progress_bar(30), "[####################]");
    assert_eq!(progress_bar(15), "[##########..........]");
    assert_eq!(progress_bar(0), "[....................]");
    assert_eq!(progress_bar(1000), "[####################]");
    assert_eq!(progress_bar(2), "[#...................]");
}

#[test]
fn table_lines_are_padded() {
    let (h, r) = table_header();
    assert_eq!(h, "Alias           | OTP        | Rem ");
    assert_eq!(r, "----------------|------------|-----");
    assert_eq!(table_row("gh", "123456", 7, "[#]"), "gh              | 123456     | 7s  [#]");
    assert_eq!(table_row("a-very-long-alias-name", "1", 29, ""), "a-very-long-alias-name | 1          | 29s ");
    assert_eq!(status_line("[##]", 5), "[##] 5s  remaining");
}

#[test]
fn table_output_single_and_many() {
    let one = vec![("gh".to_string(), "123456".to_string())];
    let out = table_output(&one, 5, true, false);
    assert_eq!(out.stdout, vec!["123456".to_string()]);
    assert_eq!(out.stderr, Some("[###.................] 5s  remaining".to_string()));
    let out = table_output(&one, 5, true, true);
    assert_eq!(out.stderr, None);
    let out = table_output(&one, 5, false, true);
    assert_eq!(out.stdout.len(), 3);
    assert_eq!(out.stdout[2], "gh              | 123456     | 5s  ");
}

#[test]
fn decoding_verdict() {
    assert_eq!(code_from_decoding("AB".to_string(), &Ok(vec![1])).unwrap(), "AB");
    assert_eq!(
        code_from_decoding("AB".to_string(), &Err("invalid length at 0".to_string())).unwrap_err(),
        "Invalid Base32 code: invalid length at 0"
    );
}

#[test]
fn seconds_left_count_down() {
    assert_eq!(seconds_left_in_period(0), 30);
    assert_eq!(seconds_left_in_period(29), 1);
    assert_eq!(seconds_left_in_period(1_700_000_015), 25);
}

#[test]
fn cleaned_code_checks_again_unchanged() {
    for code in ["mzxw6===", "jbswy3dpehpk3pxp", "GEZDGNBV"] {
        let c = sanitize_and_validate_code(code).unwrap();
        assert_eq!(sanitize_and_validate_code(&c).unwrap(), c);
    }
}
