use tunefind::api::{ConfirmError, PublishError, SubscribeError, confirmation_email_bodies};
use tunefind::config::Environment;
use tunefind::error_report::{format_error_details, u64_to_string};

#[test]
fn numbers_render_in_decimal() {
    assert_eq!(u64_to_string(0), "0");
    assert_eq!(u64_to_string(10), "10");
    assert_eq!(u64_to_string(123456789), "123456789");
}

#[test]
fn error_reports_number_the_chain_and_deduplicate_messages() {
    let main = "boom".to_string();
    let chain = vec![
        ("IoError".to_string(), "file missing".to_string()),
        ("Inner".to_string(), "boom".to_string()),
        ("Deep".to_string(), "file missing".to_string()),
    ];
    let report = format_error_details(&main, &chain);
    assert_eq!(
        report,
        "boom\nError chain:\n  [1] IoError - file missing\n  [2] Inner\n  [3] Deep\n"
    );
}

#[test]
fn an_empty_chain_reports_only_the_main_message() {
    let report = format_error_details(&"lost".to_string(), &vec![]);
    assert_eq!(report, "lost\nError chain:\n");
}

#[test]
fn environments_parse_case_insensitively() {
    assert!(matches!(Environment::try_from("local".to_string()), Ok(Environment::Local)));
    assert!(matches!(Environment::try_from("LOCAL".to_string()), Ok(Environment::Local)));
    assert!(matches!(
        Environment::try_from("Production".to_string()),
        Ok(Environment::Production)
    ));
    assert_eq!(Environment::Local.as_str(), "local");
    assert_eq!(Environment::Production.as_str(), "production");
}

#[test]
fn unknown_environments_are_rejected_with_the_lowercased_name() {
    let e = Environment::try_from("Staging".to_string()).unwrap_err();
    assert_eq!(e, "staging is not a supported environment. Use 'local' or 'production'.");
}

#[test]
fn confirmation_emails_embed_the_link_in_both_bodies() {
    let (html, plain) = confirmation_email_bodies("https://example.com/confirm?t=abc");
    assert_eq!(
        html,
        "Welcome to our newsletter!<br />\nClick <a href=\"https://example.com/confirm?t=abc\">here</a> to confirm your subscription."
    );
    assert_eq!(
        plain,
        "Welcome to our newsletter!\nVisit https://example.com/confirm?t=abc to confirm your subscription."
    );
}

#[test]
fn error_variants_render_their_response_bodies() {
    let e = SubscribeError::ValidationError("bad name".to_string());
    assert_eq!(e.message(), "Validation error: bad name");
    let e = SubscribeError::UnexpectedError("db down".to_string());
    assert_eq!(e.message(), "Unexpected error: db down");
    let e = ConfirmError::NotFound;
    assert_eq!(e.message(), "A subscriber with this token was not found");
    let e = ConfirmError::UnexpectedError("db down".to_string());
    assert_eq!(e.message(), "Unexpected error: db down");
    let e = PublishError::UnexpectedError("smtp".to_string());
    assert_eq!(e.message(), "Unexpected error: smtp");
}
