use fake::Fake;
use fake::faker::internet::en::SafeEmail;

use tunefind::domain::{SubscriberEmail, SubscriberName};

#[test]
fn valid_emails_are_parsed_successfully() {
    let email: String = SafeEmail().fake();
    assert!(SubscriberEmail::parse(email).is_ok());
}

#[test]
fn subscriber_email_empty_string_is_rejected() {
    let email = "".to_string();
    assert!(SubscriberEmail::parse(email).is_err());
}

#[test]
fn email_missing_at_symbol_is_rejected() {
    let email = "ursula.com".to_string();
    assert!(SubscriberEmail::parse(email).is_err());
}

#[test]
fn email_missing_domain_is_rejected() {
    let email = "ursula@".to_string();
    assert!(SubscriberEmail::parse(email).is_err());
}

#[test]
fn a_256_grapheme_long_name_is_valid() {
    let name = "a̐".repeat(256);
    assert!(SubscriberName::parse(name).is_ok());
}

#[test]
fn a_name_longer_than_256_graphemes_is_rejected() {
    let name = "a".repeat(257);
    assert!(SubscriberName::parse(name).is_err());
}

#[test]
fn whitespace_only_names_are_rejected() {
    let name = " ".to_string();
    assert!(SubscriberName::parse(name).is_err());
}

#[test]
fn subscriber_name_empty_string_is_rejected() {
    let name = "".to_string();
    assert!(SubscriberName::parse(name).is_err());
}

#[test]
fn names_containing_an_invalid_character_are_rejected() {
    for name in &['/', '(', ')', '"', '<', '>', '\\', '{', '}'] {
        let name = name.to_string();
        assert!(SubscriberName::parse(name).is_err());
    }
}

#[test]
fn a_valid_name_is_parsed_successfully() {
    let name = "Ursula Le Guin".to_string();
    assert!(SubscriberName::parse(name).is_ok());
}

#[test]
fn name_error_messages_name_the_failed_check() {
    let e = SubscriberName::parse("  ".to_string()).unwrap_err();
    assert_eq!(e, "Failed to parse subscriber name: cannot be empty");
    let e = SubscriberName::parse("b".repeat(300)).unwrap_err();
    assert_eq!(e, "Failed to parse subscriber name: too long");
    let e = SubscriberName::parse("a<b".to_string()).unwrap_err();
    assert_eq!(e, "Failed to parse subscriber name: invalid character");
}

#[test]
fn email_error_message_quotes_the_input() {
    let e = SubscriberEmail::parse("not-an-email".to_string()).unwrap_err();
    assert_eq!(e, "Failed to parse subscriber email: 'not-an-email'");
}

#[test]
fn form_data_is_validated_name_first() {
    let form = tunefind::api::SubscriberFormData {
        email: "ursula@example.com".to_string(),
        name: "Ursula".to_string(),
    };
    let sub = form.parse().unwrap();
    assert_eq!(sub.name.as_str(), "Ursula");
    assert_eq!(sub.email.as_str(), "ursula@example.com");

    let form = tunefind::api::SubscriberFormData {
        email: "broken".to_string(),
        name: "{}".to_string(),
    };
    let e = form.parse().unwrap_err();
    assert_eq!(e, "Failed to parse subscriber name: invalid character");

    let form = tunefind::api::SubscriberFormData {
        email: "broken".to_string(),
        name: "Ursula".to_string(),
    };
    let e = form.parse().unwrap_err();
    assert_eq!(e, "Failed to parse subscriber email: 'broken'");
}
