use gnunet::error::{
    decimal, ConnectError, ConnectGetDefaultEgoError, GetDefaultEgoError, IoError, ReadMessageError,
};

#[test]
fn composed_error_shows_whole_chain() {
    let io = IoError { description: "connection reset by peer".to_string() };
    let e = ConnectGetDefaultEgoError::Connect(ConnectError::Io(io));
    let s = e.to_string();
    assert!(s.starts_with("Failed to connect to identity service to perform default ego lookup: "));
    assert!(s.contains("I/O error communicating with the identity service during initial exchange: "));
    assert!(s.ends_with("connection reset by peer"));
}

#[test]
fn error_texts_carry_numbers_and_causes() {
    let e = ConnectError::UnexpectedMessageType(624);
    assert!(e.to_string().contains("unexpected message type (624)"));
    let e = GetDefaultEgoError::ReadMessage(ReadMessageError::ShortMessage(3));
    assert_eq!(
        e.to_string(),
        "Error receiving message from identity service during default ego lookup: \
         The service sent a message whose length (3) is shorter than its header."
    );
    let e = GetDefaultEgoError::NameTooLong("fs".to_string());
    assert_eq!(e.to_string(), "Name of service \"fs\" is too long for default ego lookup");
    assert_eq!(GetDefaultEgoError::Disconnected.to_string(), "The service unexpectedly disconnected.");
}

#[test]
fn decimal_digits() {
    assert_eq!(decimal(0), "0");
    assert_eq!(decimal(7), "7");
    assert_eq!(decimal(65535), "65535");
    assert_eq!(decimal(u64::MAX), "18446744073709551615");
}
