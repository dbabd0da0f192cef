use artifact_keeper_cli::helpers::{
    flag_on_argv, non_empty, page_info, parse_optional_uuid, parse_uuid, secret_source, skips_confirmation,
    trim_secret, SecretSource,
};

#[test]
fn parse_uuid_valid() {
    let result = parse_uuid("00000000-0000-0000-0000-000000000001", "test");
    assert!(result.is_ok());
    assert_eq!(result.unwrap().to_string(), "00000000-0000-0000-0000-000000000001");
}

#[test]
fn parse_uuid_valid_v4() {
    assert!(parse_uuid("550e8400-e29b-41d4-a716-446655440000", "artifact").is_ok());
}

#[test]
fn parse_uuid_invalid_string() {
    let result = parse_uuid("not-a-uuid", "test");
    assert!(result.is_err());
    assert_eq!(result.unwrap_err().to_string(), "Invalid test ID: not-a-uuid");
}

#[test]
fn parse_uuid_empty_string() {
    assert!(parse_uuid("", "test").is_err());
}

#[test]
fn parse_uuid_too_short() {
    assert!(parse_uuid("550e8400-e29b", "repository").is_err());
}

#[test]
fn parse_uuid_no_hyphens() {
    assert!(parse_uuid("550e8400e29b41d4a716446655440000", "test").is_ok());
}

#[test]
fn parse_optional_uuid_none() {
    let result = parse_optional_uuid(None, "test");
    assert!(result.is_ok());
    assert!(result.unwrap().is_none());
}

#[test]
fn parse_optional_uuid_some_valid() {
    let result = parse_optional_uuid(Some("00000000-0000-0000-0000-000000000001"), "test");
    assert!(result.is_ok());
    assert!(result.unwrap().is_some());
}

#[test]
fn parse_optional_uuid_some_invalid() {
    assert!(parse_optional_uuid(Some("bad"), "test").is_err());
}

#[test]
fn parse_optional_uuid_some_empty() {
    assert!(parse_optional_uuid(Some(""), "repository").is_err());
}

#[test]
fn confirm_action_skip_confirm() {
    assert!(skips_confirmation(true, false));
}

#[test]
fn confirm_action_no_input() {
    assert!(skips_confirmation(false, true));
}

#[test]
fn confirm_action_both_flags() {
    assert!(skips_confirmation(true, true));
    assert!(!skips_confirmation(false, false));
}

#[test]
fn print_page_info_single_page() {
    assert_eq!(page_info(1, 1, 5, "repos"), None);
}

#[test]
fn print_page_info_multiple_pages() {
    assert_eq!(page_info(2, 5, 120, "repos").as_deref(), Some("Page 2 of 5 (120 total repos)"));
}

#[test]
fn print_page_info_first_of_many() {
    assert_eq!(page_info(1, 10, -1, "items").as_deref(), Some("Page 1 of 10 (-1 total items)"));
}

#[test]
fn print_page_info_last_page() {
    assert_eq!(page_info(10, 10, 1000, "x").as_deref(), Some("Page 10 of 10 (1000 total x)"));
}

#[test]
fn secret_sources_in_precedence_order() {
    assert_eq!(secret_source(true, true, true, true, true), SecretSource::Stdin);
    assert_eq!(secret_source(false, true, true, false, true), SecretSource::Given);
    assert_eq!(secret_source(false, false, false, false, false), SecretSource::Absent);
    assert_eq!(secret_source(false, false, true, false, false), SecretSource::Stdin);
    assert_eq!(secret_source(false, false, true, true, true), SecretSource::Absent);
    assert_eq!(secret_source(false, false, true, false, true), SecretSource::Prompt);
}

#[test]
fn secret_text_and_flags() {
    assert_eq!(trim_secret("s3cret\r\n\n"), "s3cret");
    assert_eq!(trim_secret(" s \n x\n"), " s \n x");
    assert_eq!(non_empty(trim_secret("\n")), None);
    assert_eq!(non_empty("a".to_string()), Some("a".to_string()));
    let args = vec!["repo".to_string(), "--password=x".to_string()];
    assert!(flag_on_argv("--password", &args));
    assert!(!flag_on_argv("--pass", &args));
    assert!(flag_on_argv("repo", &args));
    assert!(!flag_on_argv("--token", &vec!["--token-stdin".to_string()]));
}

#[test]
fn parse_uuid_braced_and_urn_forms() {
    assert!(parse_uuid("{550e8400-e29b-41d4-a716-446655440000}", "test").is_ok());
    assert!(parse_uuid("URN:uuid:550e8400-e29b-41d4-a716-446655440000", "test").is_ok());
    assert!(parse_uuid("550E8400-E29B-41D4-A716-446655440000", "test").is_ok());
    assert!(parse_uuid("550e8400-e29b-41d4-a716-44665544000g", "test").is_err());
    assert!(parse_uuid("550e8400-e29b-41d4-a716_446655440000", "test").is_err());
    assert!(parse_uuid("urn:uuid:550e8400e29b41d4a716446655440000", "test").is_err());
}

#[test]
fn parse_uuid_gives_the_bytes() {
    let u = parse_uuid("550e8400-e29b-41d4-a716-446655440000", "test").unwrap();
    assert_eq!(
        u.bytes,
        [0x55, 0x0e, 0x84, 0x00, 0xe2, 0x9b, 0x41, 0xd4, 0xa7, 0x16, 0x44, 0x66, 0x55, 0x44, 0x00, 0x00]
    );
    let braced = parse_uuid("{550E8400-E29B-41D4-A716-446655440000}", "test").unwrap();
    assert_eq!(braced.bytes, u.bytes);
    assert_eq!(braced.to_string(), "550e8400-e29b-41d4-a716-446655440000");
    let o = parse_optional_uuid(Some("550e8400e29b41d4a716446655440000"), "test").unwrap().unwrap();
    assert_eq!(o.bytes, u.bytes);
    assert_eq!(o.bytes, *uuid::Uuid::parse_str("550e8400-e29b-41d4-a716-446655440000").unwrap().as_bytes());
}
