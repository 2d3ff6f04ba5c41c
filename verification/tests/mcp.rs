use openlive::mcp::{McpClient, McpError};

#[test]
fn rejects_empty_url() {
    assert!(McpClient::new("", None).is_err());
}

#[test]
fn builds_with_url() {
    let client = McpClient::new("http://127.0.0.1:9/mcp", None).expect("client");
    assert!(!client.base_url.is_empty());
}

#[test]
fn blank_url_is_a_configuration_error() {
    let err = McpClient::new("   ", Some("k".to_owned())).expect_err("blank");
    assert_eq!(err, McpError::Config("base_url cannot be empty".to_owned()));
    assert_eq!(err.message(), "mcp configuration: base_url cannot be empty");
    assert_eq!(McpError::Rpc("missing result field".to_owned()).message(), "mcp rpc error: missing result field");
    assert_eq!(McpError::Http("timeout".to_owned()).message(), "mcp http error: timeout");
}

#[test]
fn request_ids_count_up_from_one() {
    let mut client = McpClient::new("http://127.0.0.1:9/mcp", Some("key".to_owned())).expect("client");
    assert_eq!(client.take_request_id(), 1);
    assert_eq!(client.take_request_id(), 2);
    assert_eq!(client.next_id, 3);
    assert_eq!(client.api_key.as_deref(), Some("key"));
    client.next_id = u64::MAX;
    assert_eq!(client.take_request_id(), u64::MAX);
    assert_eq!(client.next_id, 0);
}
