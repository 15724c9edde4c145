use vscode_atomic_tauri::uri::VsUri;

#[test]
fn parse_and_format_http() {
    let raw = "https://example.com:8080/some/path?q=1&r=2#sec";
    let uri = VsUri::parse(raw).unwrap();
    assert_eq!(uri.scheme, "https");
    assert_eq!(uri.authority, "example.com:8080");
    assert_eq!(uri.path, "/some/path");
    assert_eq!(uri.query, "q=1&r=2");
    assert_eq!(uri.fragment, "sec");
    let roundtrip = uri.to_string_encoded();
    assert_eq!(roundtrip, raw);
}

#[test]
fn parse_vscode_file_scheme() {
    let raw = "vscode-file://vscode-app/path/to/resource";
    let uri = VsUri::parse(raw).unwrap();
    assert_eq!(uri.scheme, "vscode-file");
    assert_eq!(uri.authority, "vscode-app");
    assert_eq!(uri.path, "/path/to/resource");
    assert_eq!(uri.to_string_encoded(), raw);
}

#[test]
fn file_path_roundtrip() {
    let fspath = "/home/user/project/file.ts";
    let uri = VsUri::from_file_path(fspath);
    assert_eq!(uri.scheme, "file");
    assert_eq!(uri.fs_path(), fspath);
}

#[test]
fn with_selective_override() {
    let base = VsUri::parse("https://example.com/foo?bar#baz").unwrap();
    let modified = base.with(None, None, Some("/new-path"), Some(""), None);
    assert_eq!(modified.scheme, "https");
    assert_eq!(modified.path, "/new-path");
    assert_eq!(modified.query, "");
    assert_eq!(modified.fragment, "baz");
}

#[test]
fn parse_without_scheme_defaults_to_file() {
    let uri = VsUri::parse("no scheme here?q#f").unwrap();
    assert_eq!(uri.scheme, "file");
    assert_eq!(uri.authority, "");
    assert_eq!(uri.path, "no scheme here");
    assert_eq!(uri.query, "q");
    assert_eq!(uri.fragment, "f");
}

#[test]
fn url_crate_normalises_known_schemes() {
    let uri = VsUri::parse("HTTPS://Example.COM/a").unwrap();
    assert_eq!(uri.scheme, "https");
    assert_eq!(uri.authority, "example.com");
    assert_eq!(uri.path, "/a");
}

#[test]
fn relative_file_path_gets_a_leading_slash() {
    let uri = VsUri::from_file_path(r"C:\work\file.ts");
    assert_eq!(uri.scheme, "file");
    assert_eq!(uri.path, r"/C:\work\file.ts");
}
