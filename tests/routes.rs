use newsletter_pipeline::routes::admin::newsletters::post::PublishError;
use newsletter_pipeline::routes::login::post::{login_redirect, login_success, LoginError};
use newsletter_pipeline::routes::newsletters;
use newsletter_pipeline::routes::subscriptions_confirm::{subscriber_to_confirm, ConfirmSubscriptionError};
use newsletter_pipeline::idempotency::KeyError;

#[test]
fn auth_error_asks_for_basic_credentials() {
    let r = PublishError::AuthError(String::from("no session")).error_response();
    assert_eq!(r.status_code, 401);
    assert_eq!(r.headers.len(), 1);
    assert_eq!(r.headers[0].name, "www-authenticate");
    assert_eq!(r.headers[0].value, br#"Basic realm="publish""#.to_vec());
}

#[test]
fn other_publish_errors_have_no_headers() {
    let r = PublishError::UnexepectedError(String::from("db down")).error_response();
    assert_eq!(r.status_code, 500);
    assert!(r.headers.is_empty());
    assert_eq!(PublishError::InvalidKey(KeyError::Empty).error_response().status_code, 400);
    assert_eq!(PublishError::InProgress.error_response().status_code, 500);
    assert_eq!(newsletters::PublishError::UnexepectedError(String::from("x")).status_code(), 500);
}

#[test]
fn login_outcomes() {
    assert_eq!(LoginError::AuthError(String::from("bad")).message(), "Authentication failed.");
    assert_eq!(LoginError::UnexepectedError(String::from("x")).message(), "Something went wrong");
    let r = login_redirect(&LoginError::AuthError(String::from("bad")));
    assert_eq!(r.status_code, 303);
    assert_eq!(r.headers[0].value, b"/login".to_vec());
    assert_eq!(login_success().headers[0].value, b"/admin/dashboard".to_vec());
}

#[test]
fn confirmation_outcomes() {
    assert_eq!(subscriber_to_confirm(Some(9)).unwrap(), 9);
    let e = subscriber_to_confirm(None).unwrap_err();
    assert!(matches!(e, ConfirmSubscriptionError::InvalidTokenError));
    assert_eq!(e.status_code(), 401);
    assert_eq!(ConfirmSubscriptionError::UnexpectedError(String::from("x")).status_code(), 500);
    assert_eq!(ConfirmSubscriptionError::UnexpectedError(String::from("boom")).message(), "boom");
    assert_eq!(
        ConfirmSubscriptionError::InvalidTokenError.message(),
        "There is no subscriber associated with the provided token."
    );
}

#[test]
fn key_error_messages() {
    assert_eq!(KeyError::Empty.message(), "The idempotency key cannot be empty");
    assert_eq!(KeyError::TooLong.message(), "The idempotency key must hold at most 50 characters");
}
