use hermes::otpauth::{OtpAuth, UrlParts};

#[test]
fn test_parse_standard_totp_success() {
    let uri = "otpauth://totp/GitHub:alice@gmail.com?secret=JBSWY3DPEHPK3PXP&issuer=GitHub";
    let res = OtpAuth::parse(uri);
    assert!(res.is_ok());
    let parsed = res.unwrap();
    assert_eq!(parsed.alias, "GitHub:alice@gmail.com");
    assert_eq!(parsed.secret, "JBSWY3DPEHPK3PXP");
    assert_eq!(parsed.algorithm, "sha1");
    assert_eq!(parsed.digits, 6);
    assert_eq!(parsed.period, 30);
}

#[test]
fn test_parse_enterprise_custom_parameters() {
    let uri = "otpauth://totp/Cisco:admin?secret=KVKVEVOTEVKVEVOT&issuer=Cisco&digits=8&period=60&algorithm=SHA256";
    let res = OtpAuth::parse(uri);
    assert!(res.is_ok());
    let parsed = res.unwrap();
    assert_eq!(parsed.alias, "Cisco:admin");
    assert_eq!(parsed.algorithm, "sha256");
    assert_eq!(parsed.digits, 8);
    assert_eq!(parsed.period, 60);
}

#[test]
fn test_url_decoding_and_alias_deduplication() {
    let uri =
        "otpauth://totp/Google:stage%20user@corp.com?secret=JBSWY3DPEHPK3PXP&issuer=Google";
    let parsed = OtpAuth::parse(uri).unwrap();
    assert_eq!(parsed.alias, "Google:stage user@corp.com");
}

#[test]
fn test_missing_mandatory_secret_fails() {
    let uri = "otpauth://totp/App:user?issuer=App";
    let res = OtpAuth::parse(uri);
    assert!(res.is_err());
    assert!(res.unwrap_err().contains("Missing mandatory 'secret'"));
}

#[test]
fn test_unsupported_hotp_fails() {
    let uri = "otpauth://hotp/Bank:user?secret=JBSWY3DPEHPK3PXP&counter=12";
    let res = OtpAuth::parse(uri);
    assert!(res.is_err());
    let err = res.unwrap_err();
    assert!(err.to_lowercase().contains("totp") || err.to_lowercase().contains("otpauth"));
}

#[test]
fn test_atomic_batch_file_failure() {
    let lines = vec![
        "otpauth://totp/Service:A?secret=JBSWY3DPEHPK3PXP".to_string(),
        "   ".to_string(),
        "otpauth://hotp/BrokenCounter?secret=JBSWY3DPEHPK3PXP&counter=1".to_string(),
        "otpauth://totp/Service:B?secret=JBSWY3DPEHPK3PXP".to_string(),
    ];
    let batch_res = OtpAuth::parse_batch_lines(&lines);
    assert!(batch_res.is_err());
    assert_eq!(batch_res.unwrap_err(), "Only 'otpauth://totp/...' URIs are supported");
}

#[test]
fn batch_lines_skip_blank_and_trim() {
    let lines = vec![
        "  otpauth://totp/Service:A?secret=JBSWY3DPEHPK3PXP  ".to_string(),
        "".to_string(),
        "\totpauth://totp/Service:B?secret=KVKVEVOTEVKVEVOT\t".to_string(),
    ];
    let res = OtpAuth::parse_batch_lines(&lines).unwrap();
    assert_eq!(res.len(), 2);
    assert_eq!(res[0].alias, "Service:A");
    assert_eq!(res[1].alias, "Service:B");
    assert_eq!(res[1].secret, "KVKVEVOTEVKVEVOT");
}

#[test]
fn invalid_url_is_reported() {
    let res = OtpAuth::parse("not a url");
    let err = res.unwrap_err();
    assert!(err.starts_with("Invalid URL: "));
}

fn parts(query: &[(&str, &str)]) -> UrlParts {
    UrlParts {
        scheme: "otpauth".to_string(),
        host: Some("totp".to_string()),
        path: "//My%20Label".to_string(),
        query: query.iter().map(|(k, v)| (k.to_string(), v.to_string())).collect(),
    }
}

#[test]
fn from_parts_uses_last_value_and_defaults() {
    let p = parts(&[("secret", "AAAA"), ("secret", "BBBB"), ("digits", "300"), ("period", "+45")]);
    let r = OtpAuth::from_url_parts(&p, 77).unwrap();
    assert_eq!(r.secret, "BBBB");
    assert_eq!(r.alias, "My Label");
    assert_eq!(r.digits, 6);
    assert_eq!(r.period, 45);
    assert_eq!(r.algorithm, "sha1");
    assert_eq!(r.created_at, 77);
}

#[test]
fn from_parts_prefixes_issuer() {
    let p = parts(&[("secret", "AAAA"), ("issuer", "Acme"), ("digits", "8"), ("period", "abc")]);
    let r = OtpAuth::from_url_parts(&p, 1).unwrap();
    assert_eq!(r.alias, "Acme:My Label");
    assert_eq!(r.digits, 8);
    assert_eq!(r.period, 30);
}

#[test]
fn from_parts_rejects_other_host() {
    let mut p = parts(&[("secret", "AAAA")]);
    p.host = Some("hotp".to_string());
    assert!(OtpAuth::from_url_parts(&p, 1).is_err());
    p.host = None;
    assert!(OtpAuth::from_url_parts(&p, 1).is_err());
}

#[test]
fn from_parts_label_decoding_edges() {
    let mut p = parts(&[("secret", "AAAA")]);
    p.path = "/a%FFb".to_string();
    assert_eq!(OtpAuth::from_url_parts(&p, 1).unwrap().alias, "a%FFb");
    p.path = "/x%4".to_string();
    assert_eq!(OtpAuth::from_url_parts(&p, 1).unwrap().alias, "x%4");
    p.path = "/%41%6a".to_string();
    assert_eq!(OtpAuth::from_url_parts(&p, 1).unwrap().alias, "Aj");
}
