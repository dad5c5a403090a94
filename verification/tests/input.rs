use host_core::error::HostError;
use host_core::input::{
    fetch_read_error, fetch_send_error, fetch_status_error, is_success_status, kovrex_file_url,
    ByteSource, FileInput,
};

fn inline(content: &str, filename: Option<&str>) -> FileInput {
    FileInput::InlineBase64 {
        content_b64: content.to_string(),
        filename: filename.map(str::to_string),
    }
}

fn remote(file_id: &str, filename: Option<&str>) -> FileInput {
    FileInput::KovrexFile {
        file_id: file_id.to_string(),
        filename: filename.map(str::to_string),
    }
}

#[test]
fn display_name_prefers_filename() {
    assert_eq!(inline("YWJj", Some("old.csv")).display_name("x.csv"), "old.csv");
    assert_eq!(inline("YWJj", None).display_name("old.csv"), "old.csv");
    assert_eq!(remote("kvx_file_123", None).display_name("new.csv"), "kvx_file_123");
    assert_eq!(remote("kvx_file_123", Some("data.csv")).display_name("new.csv"), "data.csv");
}

#[test]
fn resolve_bytes_decodes_inline_content() {
    match inline("YWJj", None).resolve_bytes("old") {
        Ok(ByteSource::Loaded(bytes)) => assert_eq!(bytes, b"abc"),
        _ => panic!("inline content should decode"),
    }
    match inline("", None).resolve_bytes("old") {
        Ok(ByteSource::Loaded(bytes)) => assert!(bytes.is_empty()),
        _ => panic!("empty content should decode"),
    }
}

#[test]
fn resolve_bytes_rejects_invalid_base64() {
    for bad in ["!!!!", "YWJ", "YQ=", "YWJj*"] {
        let error = inline(bad, None).resolve_bytes("profile").unwrap_err();
        assert_eq!(error.status(), 400);
        let prefix = "invalid base64 for 'profile': ";
        assert!(error.message().starts_with(prefix), "{}", error.message());
        assert!(error.message().len() > prefix.len());
    }
}

#[test]
fn resolve_bytes_leaves_remote_files_to_fetch() {
    match remote("kvx_file_123", None).resolve_bytes("new") {
        Ok(ByteSource::Fetch(id)) => assert_eq!(id, "kvx_file_123"),
        _ => panic!("remote input should be fetched"),
    }
}

#[test]
fn kovrex_url_drops_trailing_slashes() {
    assert_eq!(kovrex_file_url("https://gateway.kovrex.ai/v1/files", "f1"), "https://gateway.kovrex.ai/v1/files/f1");
    assert_eq!(kovrex_file_url("https://gateway.kovrex.ai/v1/files///", "f1"), "https://gateway.kovrex.ai/v1/files/f1");
    assert_eq!(kovrex_file_url("", "f1"), "/f1");
    assert_eq!(kovrex_file_url("///", "f1"), "/f1");
    for api in ["http://a/b", "http://a/b/", "http://a/b//"] {
        assert_eq!(kovrex_file_url(api, "id"), "http://a/b/id");
    }
}

#[test]
fn fetch_errors_are_bad_gateway() {
    assert!(is_success_status(200));
    assert!(is_success_status(299));
    assert!(!is_success_status(199));
    assert!(!is_success_status(300));
    assert!(!is_success_status(404));
    let e = fetch_send_error("f1", "connection refused");
    assert_eq!(e.status(), 502);
    assert_eq!(e.message(), "failed to fetch Kovrex file 'f1': connection refused");
    let e = fetch_status_error("f1", "404 Not Found", "missing");
    assert_eq!(e.status(), 502);
    assert_eq!(e.message(), "Kovrex file API returned 404 Not Found for 'f1': missing");
    let e = fetch_read_error("f1", "eof");
    assert_eq!(e.status(), 502);
    assert_eq!(e.message(), "failed to read Kovrex file 'f1': eof");
}

#[test]
fn host_error_constructors() {
    let cases = [
        (HostError::bad_request("a".to_string()), 400),
        (HostError::unauthorized("b".to_string()), 401),
        (HostError::bad_gateway("c".to_string()), 502),
        (HostError::internal("d".to_string()), 500),
        (HostError::new(418, "e".to_string()), 418),
    ];
    for (error, status) in cases {
        assert_eq!(error.status(), status);
        assert_eq!(error.message().len(), 1);
    }
}
