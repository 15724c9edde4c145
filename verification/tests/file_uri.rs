use vscode_atomic_tauri::contracts::UriDto;
use vscode_atomic_tauri::file_uri::{
    file_uri_to_path, path_from_uri, path_to_file_uri, percent_decode_utf8, percent_encode_path_str,
    windows_file_uri_to_path_string, windows_path_str_to_file_uri,
};

fn uri(scheme: &str, authority: Option<&str>, path: &str) -> UriDto {
    UriDto {
        scheme: scheme.to_string(),
        authority: authority.map(str::to_string),
        path: path.to_string(),
        query: None,
        fragment: None,
    }
}

#[test]
fn path_validation_rejects_non_file_scheme() {
    let error = path_from_uri(&uri("vscode", None, "/tmp/file.txt")).expect_err("non-file scheme rejected");

    assert_eq!(error.code, "fs.invalidUri");
}

#[test]
fn path_validation_rejects_relative_file_path() {
    let error = path_from_uri(&uri("file", None, "relative.txt")).expect_err("relative path rejected");

    assert_eq!(error.code, "fs.invalidUri");
}

#[test]
fn posix_file_uri_decodes_and_encodes_reserved_path_bytes() {
    let resource = uri("file", None, "/tmp/name%20with%20spaces/%23hash%3Fquery%25percent.txt");

    let path = file_uri_to_path(&resource).expect("POSIX file URI decodes");
    assert_eq!(path, "/tmp/name with spaces/#hash?query%percent.txt");

    let encoded = path_to_file_uri(&path).expect("POSIX path encodes");
    assert_eq!(encoded.scheme, "file");
    assert_eq!(encoded.authority, None);
    assert_eq!(encoded.path, "/tmp/name%20with%20spaces/%23hash%3Fquery%25percent.txt");
}

#[test]
fn empty_authority_is_treated_as_no_authority() {
    let path = file_uri_to_path(&uri("file", Some(""), "/tmp/file.txt")).expect("empty authority accepted");

    assert_eq!(path, "/tmp/file.txt");
}

#[test]
fn file_uri_rejects_invalid_percent_encoding() {
    let error = file_uri_to_path(&uri("file", None, "/tmp/%GG.txt")).expect_err("invalid percent escape rejected");

    assert_eq!(error.code, "fs.invalidUri");
}

#[test]
fn windows_file_uri_decodes_drive_letter_case() {
    for path in ["/c:/Users/Alice/file.txt", "/C:/Users/Alice/file.txt"] {
        let decoded =
            windows_file_uri_to_path_string(&uri("file", None, path)).expect("Windows drive file URI decodes");

        assert_eq!(decoded, r"C:\Users\Alice\file.txt");
    }
}

#[test]
fn windows_file_uri_decodes_empty_authority_as_drive_path() {
    let decoded = windows_file_uri_to_path_string(&uri("file", Some(""), "/c:/Users/Alice/file.txt"))
        .expect("empty authority accepted");

    assert_eq!(decoded, r"C:\Users\Alice\file.txt");
}

#[test]
fn windows_unc_file_uri_decodes_and_encodes_authority() {
    let decoded =
        windows_file_uri_to_path_string(&uri("file", Some("server"), "/share/f.txt")).expect("UNC file URI decodes");
    assert_eq!(decoded, r"\\server\share\f.txt");

    let encoded =
        windows_path_str_to_file_uri(r"\\server\share\f.txt", r"\\server\share\f.txt").expect("UNC path encodes");
    assert_eq!(encoded.scheme, "file");
    assert_eq!(encoded.authority.as_deref(), Some("server"));
    assert_eq!(encoded.path, "/share/f.txt");
}

#[test]
fn windows_file_uri_decodes_percent_encoding() {
    let decoded = windows_file_uri_to_path_string(&uri("file", None, "/c:/Users/Alice/name%20%23%3F%25.txt"))
        .expect("Windows percent-encoded file URI decodes");

    assert_eq!(decoded, r"C:\Users\Alice\name #?%.txt");
}

#[test]
fn windows_file_uri_rejects_relative_path() {
    let error = windows_file_uri_to_path_string(&uri("file", None, "relative.txt"))
        .expect_err("Windows relative path rejected");

    assert_eq!(error.code, "fs.invalidUri");
}

#[test]
fn posix_file_uri_roundtrips_supported_examples() {
    for resource in [uri("file", None, "/tmp/file.txt"), uri("file", Some(""), "/tmp/name%20%23%3F%25.txt")] {
        let path = file_uri_to_path(&resource).expect("file URI decodes");
        let encoded = path_to_file_uri(&path).expect("path encodes");

        assert_eq!(encoded, uri("file", None, &resource.path));
    }
}

#[test]
fn windows_file_uri_roundtrips_supported_examples() {
    for (resource, expected_path) in [
        (uri("file", None, "/c:/Users/Alice/file.txt"), r"C:\Users\Alice\file.txt"),
        (uri("file", Some("server"), "/share/name%20%23%3F%25.txt"), r"\\server\share\name #?%.txt"),
    ] {
        let path = windows_file_uri_to_path_string(&resource).expect("file URI decodes");
        assert_eq!(path, expected_path);

        let encoded = windows_path_str_to_file_uri(&path, &path).expect("path encodes");
        let expected_path =
            if resource.authority.is_none() { resource.path.replacen("/C:", "/c:", 1) } else { resource.path.clone() };

        assert_eq!(encoded, uri("file", resource.authority.as_deref(), &expected_path));
    }
}

#[test]
fn percent_encoding_keeps_unreserved_bytes() {
    assert_eq!(percent_encode_path_str("/a b/ü#"), "/a%20b/%C3%BC%23");
}

#[test]
fn percent_decoding_rejects_invalid_utf8() {
    let error = percent_decode_utf8("%FF", "path").expect_err("not UTF-8");
    assert_eq!(error.code, "fs.invalidUri");
}

#[test]
fn non_file_scheme_message_names_the_scheme() {
    let error = file_uri_to_path(&uri("https", None, "/x")).expect_err("scheme refused");
    assert_eq!(error.code, "fs.invalidUri");
    assert!(error.message.contains("https"));
}

#[test]
fn percent_decoding_undoes_path_encoding_of_any_text() {
    for text in ["", "plain", "a b#?%", "/tmp/ü/日本語 file.txt", "100%25", ":~._-/"] {
        let encoded = vscode_atomic_tauri::file_uri::percent_encode_path_bytes(text.as_bytes());
        assert_eq!(percent_decode_utf8(&encoded, "label").expect("decodes"), text);
    }
}

#[test]
fn canonical_file_uri_survives_path_and_back() {
    let resource = UriDto {
        scheme: "file".to_string(),
        authority: Some(String::new()),
        path: "/tmp/%C3%BC%20x".to_string(),
        query: Some("q".to_string()),
        fragment: Some("f".to_string()),
    };
    let path = file_uri_to_path(&resource).expect("decodes");
    assert_eq!(path, "/tmp/ü x");
    assert_eq!(path_to_file_uri(&path).expect("encodes"), uri("file", None, "/tmp/%C3%BC%20x"));
}
