//! Endpoint configuration and the error taxonomy.

use unix_socket_based_client_server::errors::ServerError;
use unix_socket_based_client_server::socket::SocketBuilder;

#[test]
fn builder_assembles_the_configuration() {
    let config = SocketBuilder::new()
        .with_path("/tmp/rst.sock")
        .with_permissions(0o700)
        .nonblocking(false)
        .build();
    assert_eq!(config.path, "/tmp/rst.sock");
    assert_eq!(config.permissions, 0o700);
    assert!(!config.nonblocking);
}

#[test]
fn builder_defaults_are_owner_only_and_blocking() {
    let config = SocketBuilder::new().build();
    assert_eq!(config.path, "");
    assert_eq!(config.permissions, 0o700);
    assert!(!config.nonblocking);
}

#[test]
fn builder_steps_replace_one_field_each() {
    let config = SocketBuilder::new()
        .with_path("/tmp/a.sock")
        .with_path("/tmp/b.sock")
        .with_permissions(0o600)
        .nonblocking(true)
        .build();
    assert_eq!(config.path, "/tmp/b.sock");
    assert_eq!(config.permissions, 0o600);
    assert!(config.nonblocking);
}

#[test]
fn every_error_kind_describes_itself() {
    assert_eq!(ServerError::Creation.describe(), "could not create the socket");
    assert_eq!(ServerError::Accept.describe(), "could not accept a connection");
    assert_eq!(ServerError::Read.describe(), "failed at reading the stream");
    assert_eq!(
        ServerError::Decode.describe(),
        "could not deserialize the request message"
    );
    assert_eq!(ServerError::Encode.describe(), "could not serialize a response");
    assert_eq!(
        ServerError::Write.describe(),
        "could not write a response onto the stream"
    );
}
