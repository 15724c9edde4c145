use vscode_atomic_tauri::protocols::{
    content_security_policy, placeholder_status, validate_nonce, validate_strict_path, validate_vscode_file_uri,
    validate_vscode_webview_uri, ProtocolValidationError, RequestUri,
};

/// The parts of a URI as the HTTP stack splits them: scheme, host, path
/// and query.
fn uri(scheme: &str, host: Option<&str>, path: &str, query: Option<&str>) -> RequestUri {
    RequestUri {
        scheme: Some(scheme.to_string()),
        host: host.map(str::to_string),
        path: path.to_string(),
        query: query.map(str::to_string),
    }
}

#[test]
fn validates_vscode_file_safe_paths() {
    assert_eq!(validate_vscode_file_uri(&uri("vscode-file", Some(""), "/safe/path.txt", None)), Ok(()));
    assert_eq!(validate_vscode_file_uri(&uri("vscode-file", Some("vscode-file"), "/safe/path.txt", None)), Ok(()));
}

#[test]
fn rejects_vscode_file_untrusted_authority_and_traversal() {
    assert_eq!(
        validate_vscode_file_uri(&uri("vscode-file", Some("evil.example"), "/safe/path.txt", None)),
        Err(ProtocolValidationError::InvalidAuthority)
    );
    assert_eq!(
        validate_vscode_file_uri(&uri("vscode-file", Some(""), "/safe/../secret.txt", None)),
        Err(ProtocolValidationError::InvalidPath)
    );
    assert_eq!(
        validate_vscode_file_uri(&uri("vscode-file", Some(""), "/safe/%2e%2e/secret.txt", None)),
        Err(ProtocolValidationError::InvalidPath)
    );
}

#[test]
fn validates_vscode_webview_origin_path_and_nonce() {
    assert_eq!(
        validate_vscode_webview_uri(&uri("vscode-webview", Some("extension-host-1"), "/index.html", Some("nonce=abcDEF1234567890"))),
        Ok("abcDEF1234567890".to_string())
    );
}

#[test]
fn rejects_vscode_webview_without_isolated_origin_or_nonce() {
    assert_eq!(
        validate_vscode_webview_uri(&uri("vscode-webview", Some("localhost"), "/index.html", Some("nonce=abcDEF1234567890"))),
        Err(ProtocolValidationError::InvalidAuthority)
    );
    assert_eq!(
        validate_vscode_webview_uri(&uri("vscode-webview", Some("extension-host-1"), "/index.html", None)),
        Err(ProtocolValidationError::InvalidNonce)
    );
    assert_eq!(
        validate_vscode_webview_uri(&uri("vscode-webview", Some("extension-host-1"), "/index.html", Some("nonce=short"))),
        Err(ProtocolValidationError::InvalidNonce)
    );
}

#[test]
fn scheme_is_checked_without_regard_to_case() {
    assert_eq!(validate_vscode_file_uri(&uri("VSCODE-FILE", None, "/a", None)), Ok(()));
    assert_eq!(validate_vscode_file_uri(&uri("https", None, "/a", None)), Err(ProtocolValidationError::InvalidScheme));
    let no_scheme = RequestUri { scheme: None, host: None, path: "/a".to_string(), query: None };
    assert_eq!(validate_vscode_file_uri(&no_scheme), Err(ProtocolValidationError::InvalidScheme));
    assert_eq!(
        validate_vscode_webview_uri(&uri("vscode-webview", Some("a..b"), "/i", Some("nonce=abcDEF1234567890"))),
        Err(ProtocolValidationError::InvalidAuthority)
    );
}

#[test]
fn strict_paths_refuse_escapes_and_dot_segments() {
    assert!(validate_strict_path("/a/b.txt").is_ok());
    for bad in ["", "a/b", "/a\\b", "/a/./b", "/a/%2F", "/a/%5C", "/a\0"] {
        assert_eq!(validate_strict_path(bad), Err(ProtocolValidationError::InvalidPath), "{bad:?}");
    }
}

#[test]
fn first_nonce_pair_decides() {
    assert_eq!(validate_nonce(Some("x=1&nonce=abcdefghijklmnop&nonce=zzz")), Ok("abcdefghijklmnop".to_string()));
    assert_eq!(validate_nonce(Some("nonce=bad!bad!bad!bad!&nonce=abcdefghijklmnop")), Err(ProtocolValidationError::InvalidNonce));
    assert_eq!(validate_nonce(Some("other=1")), Err(ProtocolValidationError::InvalidNonce));
}

#[test]
fn placeholder_answers_carry_a_restrictive_policy() {
    assert_eq!(placeholder_status(true), 404);
    assert_eq!(placeholder_status(false), 403);
    assert_eq!(content_security_policy(None), "default-src 'none'; frame-ancestors 'none'; base-uri 'none'");
    assert_eq!(
        content_security_policy(Some("n1")),
        "default-src 'none'; script-src 'nonce-n1'; style-src 'nonce-n1'; img-src 'none'; connect-src 'none'; frame-ancestors 'none'; base-uri 'none'"
    );
}
