use hermes::codex::{
    alias_exists, check_codex_text, codex_text, join_lines, remove_alias, rename_alias,
};
use hermes::models::{default_digits, default_period, Record};

fn rec(alias: &str) -> Record {
    Record {
        alias: alias.to_string(),
        secret: format!("secret-{alias}"),
        is_unencrypted: true,
        algorithm: "sha1".to_string(),
        digits: 6,
        period: 30,
        created_at: 100,
    }
}

fn aliases(rs: &[Record]) -> Vec<String> {
    rs.iter().map(|r| r.alias.clone()).collect()
}

#[test]
fn record_new_has_defaults() {
    let at = Record::new_at("gh".to_string(), "JBSWY3DP".to_string(), true, 1234);
    assert_eq!(at.created_at, 1234);
    assert_eq!(at.algorithm, "sha1");
    assert!(at.is_unencrypted);
    let r = Record::new("gh".to_string(), "JBSWY3DP".to_string(), false);
    assert_eq!(r.alias, "gh");
    assert_eq!(r.secret, "JBSWY3DP");
    assert!(!r.is_unencrypted);
    assert_eq!(r.algorithm, "sha1");
    assert_eq!(r.digits, 6);
    assert_eq!(r.period, 30);
    assert!(r.created_at > 0);
    assert_eq!(default_digits(), 6);
    assert_eq!(default_period(), 30);
}

#[test]
fn alias_exists_reads_the_codex() {
    let codex: Result<Vec<Record>, String> = Ok(vec![rec("a"), rec("b")]);
    assert!(alias_exists("b", &codex));
    assert!(!alias_exists("c", &codex));
    let broken: Result<Vec<Record>, String> = Err("Codex not found.".to_string());
    assert!(!alias_exists("a", &broken));
}

#[test]
fn remove_drops_every_record_of_the_alias() {
    let rs = vec![rec("a"), rec("b"), rec("a"), rec("c")];
    let kept = remove_alias(&rs, "a").unwrap();
    assert_eq!(aliases(&kept), vec!["b", "c"]);
    assert_eq!(kept[0].secret, "secret-b");
}

#[test]
fn remove_missing_alias_is_an_error() {
    let rs = vec![rec("a")];
    assert_eq!(remove_alias(&rs, "z").unwrap_err(), "Error: No record for 'z' found");
}

#[test]
fn rename_renames_first_match_only() {
    let codex: Result<Vec<Record>, String> = Ok(vec![rec("x"), rec("a"), rec("a")]);
    let out = rename_alias(&codex, "a", "b").unwrap();
    assert_eq!(aliases(&out), vec!["x", "b", "a"]);
    assert_eq!(out[1].secret, "secret-a");
}

#[test]
fn rename_errors_in_order() {
    let codex: Result<Vec<Record>, String> = Ok(vec![rec("a"), rec("b")]);
    assert_eq!(rename_alias(&codex, "a", "c:d").unwrap_err(), "The new alias cannot contain ':'");
    assert_eq!(rename_alias(&codex, "a", "b").unwrap_err(), "Alias 'b' already exists.");
    assert_eq!(rename_alias(&codex, "z", "y").unwrap_err(), "Alias 'z' not found.");
    let broken: Result<Vec<Record>, String> = Err("Codex not found.".to_string());
    assert_eq!(rename_alias(&broken, "a", "y").unwrap_err(), "Codex not found.");
    assert_eq!(rename_alias(&broken, "a", "y:z").unwrap_err(), "The new alias cannot contain ':'");
}

#[test]
fn rename_back_restores_records() {
    let codex: Result<Vec<Record>, String> = Ok(vec![rec("a"), rec("b")]);
    let once = rename_alias(&codex, "a", "z").unwrap();
    let back = rename_alias(&Ok(once), "z", "a").unwrap();
    assert_eq!(aliases(&back), vec!["a", "b"]);
    assert_eq!(back[0].secret, "secret-a");
}

#[test]
fn codex_text_format_check() {
    assert!(check_codex_text("").is_ok());
    assert!(check_codex_text("  \n ").is_ok());
    assert!(check_codex_text("\n {\"alias\":\"a\"}").is_ok());
    assert_eq!(
        check_codex_text("alias:secret").unwrap_err(),
        "Invalid codex format: expected JSON."
    );
}

#[test]
fn codex_text_trims_and_ends_with_newline() {
    assert_eq!(codex_text("  {\"a\":1}\n{\"b\":2}\n\n"), "{\"a\":1}\n{\"b\":2}\n");
    assert_eq!(codex_text(""), "\n");
    let once = codex_text(" x \n");
    assert_eq!(codex_text(&once), once);
}

#[test]
fn join_lines_ends_each_line() {
    assert_eq!(join_lines(&vec!["a".to_string(), "b".to_string()]), "a\nb\n");
    assert_eq!(join_lines(&vec![]), "\n");
}

#[test]
fn written_codex_passes_format_check() {
    let lines = vec!["{\"alias\":\"a\"}".to_string(), "{\"alias\":\"b\"}".to_string()];
    let text = codex_text(&join_lines(&lines));
    assert!(check_codex_text(&text).is_ok());
    let empty = codex_text(&join_lines(&vec![]));
    assert!(check_codex_text(&empty).is_ok());
}

#[test]
fn removed_alias_is_gone() {
    let rs = vec![rec("a"), rec("b")];
    let kept = remove_alias(&rs, "a").unwrap();
    assert!(!alias_exists("a", &Ok(kept)));
}

#[test]
fn remove_undoes_add() {
    let mut rs = vec![rec("a"), rec("b")];
    rs.push(rec("new"));
    let kept = remove_alias(&rs, "new").unwrap();
    assert_eq!(aliases(&kept), vec!["a", "b"]);
}
