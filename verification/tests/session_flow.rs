use skyanswers::session::{
    check_status, content_result, parse_auth_response, parse_room_response, parse_task_response,
    token_result, uuids_result, ApiError, SkysmartAPIClient,
};

/// Drives the session as the transport loop does, counting how often a
/// credential acquisition is demanded.
fn authenticated_call(client: &mut SkysmartAPIClient, acquisitions: &mut usize) {
    if client.needs_auth() {
        *acquisitions += 1;
        client.set_token(String::from("tok"));
    }
    let headers = client.get_headers();
    assert_eq!(headers.len(), 5);
}

#[test]
fn two_calls_acquire_exactly_once() {
    let mut client = SkysmartAPIClient::new();
    let mut acquisitions: usize = 0;
    authenticated_call(&mut client, &mut acquisitions);
    authenticated_call(&mut client, &mut acquisitions);
    assert_eq!(acquisitions, 1);
}

#[test]
fn close_clears_the_token_and_never_fails() {
    let mut client = SkysmartAPIClient::new();
    assert!(client.needs_auth());
    assert!(client.close().is_ok());
    client.set_token(String::from("tok"));
    assert!(!client.needs_auth());
    assert!(client.close().is_ok());
    assert!(client.needs_auth());
}

#[test]
fn headers_carry_the_bearer_token() {
    let mut client = SkysmartAPIClient::new();
    client.set_token(String::from("tok"));
    let headers = client.get_headers();
    assert_eq!(headers[0], (String::from("Connection"), String::from("keep-alive")));
    assert_eq!(headers[1], (String::from("Content-Type"), String::from("application/json")));
    assert_eq!(headers[3].0, "Accept");
    assert_eq!(headers[4], (String::from("Authorization"), String::from("Bearer tok")));
}

#[test]
fn identity_comes_from_the_fixed_pool_and_is_stable() {
    let mut client = SkysmartAPIClient::new();
    client.set_token(String::from("tok"));
    let first = client.get_headers();
    let second = client.get_headers();
    assert_eq!(first[2], second[2]);
    assert!(first[2].1.starts_with("Mozilla/5.0"));
}

#[test]
fn auth_response_with_token_succeeds() {
    let v: serde_json::Value = serde_json::from_str("{\"jwtToken\": \"abc\"}").unwrap();
    assert_eq!(parse_auth_response(&v), Ok(String::from("abc")));
}

#[test]
fn auth_response_without_token_is_auth_error() {
    let v: serde_json::Value = serde_json::from_str("{\"other\": 1}").unwrap();
    assert_eq!(parse_auth_response(&v), Err(ApiError::Auth));
    let v2: serde_json::Value = serde_json::from_str("{\"jwtToken\": 5}").unwrap();
    assert_eq!(parse_auth_response(&v2), Err(ApiError::Auth));
}

#[test]
fn room_response_yields_ordered_uuids() {
    let v: serde_json::Value =
        serde_json::from_str("{\"meta\": {\"stepUuids\": [\"u1\", \"u2\", \"u3\"]}}").unwrap();
    assert_eq!(parse_room_response(&v), Ok(vec![
        String::from("u1"),
        String::from("u2"),
        String::from("u3"),
    ]));
}

#[test]
fn room_response_skips_entries_that_are_not_strings() {
    let v: serde_json::Value =
        serde_json::from_str("{\"meta\": {\"stepUuids\": [\"u1\", 7, null, \"u2\"]}}").unwrap();
    assert_eq!(parse_room_response(&v), Ok(vec![String::from("u1"), String::from("u2")]));
}

#[test]
fn room_response_without_array_is_resolution_error() {
    let v: serde_json::Value = serde_json::from_str("{\"meta\": {}}").unwrap();
    assert_eq!(parse_room_response(&v), Err(ApiError::Resolution));
    let v2: serde_json::Value = serde_json::from_str("{}").unwrap();
    assert_eq!(parse_room_response(&v2), Err(ApiError::Resolution));
    let v3: serde_json::Value =
        serde_json::from_str("{\"meta\": {\"stepUuids\": \"not-an-array\"}}").unwrap();
    assert_eq!(parse_room_response(&v3), Err(ApiError::Resolution));
}

#[test]
fn task_response_content_is_verbatim() {
    let v: serde_json::Value =
        serde_json::from_str("{\"content\": \"<p>markup</p>\"}").unwrap();
    assert_eq!(parse_task_response(&v), Ok(String::from("<p>markup</p>")));
}

#[test]
fn task_response_without_content_is_missing_content() {
    let v: serde_json::Value = serde_json::from_str("{\"other\": true}").unwrap();
    assert_eq!(parse_task_response(&v), Err(ApiError::MissingContent));
}

#[test]
fn status_check_accepts_exactly_2xx() {
    assert!(check_status(200).is_ok());
    assert!(check_status(299).is_ok());
    assert_eq!(check_status(199), Err(ApiError::Remote(199)));
    assert_eq!(check_status(300), Err(ApiError::Remote(300)));
    assert_eq!(check_status(404), Err(ApiError::Remote(404)));
    assert_eq!(check_status(500), Err(ApiError::Remote(500)));
}

#[test]
fn field_deciders_are_exact() {
    assert_eq!(token_result(Some(String::from("t"))), Ok(String::from("t")));
    assert_eq!(token_result(None), Err(ApiError::Auth));
    assert_eq!(content_result(Some(String::from("c"))), Ok(String::from("c")));
    assert_eq!(content_result(None), Err(ApiError::MissingContent));
    assert_eq!(
        uuids_result(Some(vec![Some(String::from("a")), None, Some(String::from("b"))])),
        Ok(vec![String::from("a"), String::from("b")])
    );
    assert_eq!(uuids_result(None), Err(ApiError::Resolution));
}
