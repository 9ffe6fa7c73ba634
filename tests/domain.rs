use zero2prod::configuration::Environment;
use zero2prod::domain::{is_valid_email, NewSubscriber, SubscriberEmail, SubscriberName};
use zero2prod::login::LoginError;
use zero2prod::startup::ApplicationBaseUrl;
use zero2prod::subscriptions::{confirmation_link, ConfirmationEmail};

#[test]
fn valid_addresses_are_accepted() {
    assert!(SubscriberEmail::parse("potato@tomato.com".to_string()).is_ok());
    assert!(is_valid_email(&"a@b".to_string()));
}

#[test]
fn invalid_addresses_are_rejected() {
    for bad in ["", "definitely-not-an-email", "@domain.com", "user@", "a@b@c", "a b@c.com", "a@b\tc"] {
        assert!(!is_valid_email(&bad.to_string()), "{}", bad);
    }
    assert_eq!(
        SubscriberEmail::parse("ursula.com".to_string()).err().unwrap(),
        "ursula.com is not a valid subscriber email."
    );
}

#[test]
fn names_are_validated() {
    assert!(SubscriberName::parse("Ursula Le Guin".to_string()).is_ok());
    assert!(SubscriberName::parse("ё".repeat(256)).is_ok());
    assert!(SubscriberName::parse("a".repeat(257)).is_err());
    assert!(SubscriberName::parse("".to_string()).is_err());
    assert!(SubscriberName::parse(" \t\u{3000}".to_string()).is_err());
    for c in ['/', '(', ')', '"', '<', '>', '\\', '{', '}'] {
        assert!(SubscriberName::parse(format!("na{}me", c)).is_err());
    }
    assert_eq!(SubscriberName::parse("".to_string()).err().unwrap(), " is not a valid subscriber name.");
}

#[test]
fn new_subscriber_reports_the_first_failure() {
    let s = NewSubscriber::try_from("Potato Tomato".to_string(), "potato@tomato.com".to_string()).unwrap();
    assert_eq!(s.name.as_str(), "Potato Tomato");
    assert_eq!(s.email.as_str(), "potato@tomato.com");
    let e = NewSubscriber::try_from("".to_string(), "bad".to_string()).err().unwrap();
    assert_eq!(e, " is not a valid subscriber name.");
    let e = NewSubscriber::try_from("Potato".to_string(), "".to_string()).err().unwrap();
    assert_eq!(e, " is not a valid subscriber email.");
}

#[test]
fn environment_names() {
    assert_eq!(Environment::Local.as_str(), "local");
    assert_eq!(Environment::Production.as_str(), "production");
    assert_eq!(Environment::try_from("LOCAL".to_string()), Ok(Environment::Local));
    assert_eq!(Environment::try_from("Production".to_string()), Ok(Environment::Production));
    assert_eq!(
        Environment::try_from("Staging".to_string()),
        Err("staging is not a supported environment. Use either `local` or `production`.".to_string())
    );
}

#[test]
fn login_errors() {
    let auth = LoginError::AuthError(anyhow::Error::msg("bad password"));
    let other = LoginError::UnexpectedError(anyhow::Error::msg("db down"));
    assert_eq!(auth.status_code(), 401);
    assert_eq!(other.status_code(), 500);
    assert_eq!(auth.to_string(), "Authentication Failed");
    assert_eq!(other.to_string(), "Something went wrong");
}

#[test]
fn confirmation_email_text() {
    let base = ApplicationBaseUrl("http://127.0.0.1".to_string());
    let link = confirmation_link(&base.0, "tok");
    assert_eq!(link, "http://127.0.0.1/subscriptions/confirm?subscription_token=tok");
    let email = ConfirmationEmail::new(&base.0, "tok");
    assert_eq!(email.subject, "Welcome");
    assert_eq!(
        email.plain_body,
        "Welcome to our newsletter!\nVisit http://127.0.0.1/subscriptions/confirm?subscription_token=tok to confirm your subscription"
    );
    assert_eq!(
        email.html_body,
        "Welcome to our newsletter!<br/>Click <a href=\"http://127.0.0.1/subscriptions/confirm?subscription_token=tok\">here</a> to confirm your subscription."
    );
}
