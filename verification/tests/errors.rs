//! Error types and the message-preserving conversions between layers.

use auth_sessions::errors::{ApiError, AuthenticationError, BusinessError, DriverError};

#[test]
fn authentication_error_carries_its_message() {
    let e = AuthenticationError::new("invalid credentials");
    assert_eq!(e.message(), "invalid credentials");
}

#[test]
fn driver_error_carries_its_message() {
    let e = DriverError::new("duplicate record");
    assert_eq!(e.message(), "duplicate record");
}

#[test]
fn conversions_propagate_messages_unchanged() {
    let from_auth = BusinessError::from(AuthenticationError::new("invalid token"));
    assert_eq!(from_auth.message(), "invalid token");

    let from_driver = BusinessError::from(DriverError::new("conflicting update"));
    assert_eq!(from_driver.message(), "conflicting update");

    let api = ApiError::from(BusinessError::from(AuthenticationError::new("invalid token")));
    assert_eq!(api.message(), "invalid token");
}
