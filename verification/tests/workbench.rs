use vscode_atomic_tauri::workbench::{
    check_workbench_resolution, env_flag, lexical_normalize_path, paths_equal, resolve_workbench_path, resolve_workbench_url_with_release_policy,
    ResolvedWorkbenchUrl, WorkbenchEnvironment, WorkbenchFiles, WorkbenchResolveError,
};

const WORKBENCH_URL_ENV: &str = "CODE_TAURI_WORKBENCH_URL";
const WORKBENCH_PATH_ENV: &str = "CODE_TAURI_WORKBENCH_PATH";
const REQUIRE_REAL_WORKBENCH_ENV: &str = "CODE_TAURI_REQUIRE_REAL_WORKBENCH";
const FALLBACK_APP_ENTRY: &str = "index.html";
const FALLBACK_APP_ENTRY_DISPLAY: &str = "src-tauri/www/index.html";
const DEFAULT_WORKBENCH_ENTRY: &str = "out/vs/code/browser/workbench/workbench.html";
const PACKAGED_APP_DIR: &str = "src-tauri/www";

fn resolve_for(envs: &[(&str, &str)], present_paths: &[&str]) -> ResolvedWorkbenchUrl {
    resolve_for_release_policy(envs, present_paths, false)
}

fn resolve_for_release_policy(
    envs: &[(&str, &str)],
    present_paths: &[&str],
    release_build_requires_real_workbench: bool,
) -> ResolvedWorkbenchUrl {
    match try_resolve(envs, present_paths, release_build_requires_real_workbench) {
        Ok(resolved) => resolved,
        Err(error) => panic!("{}", error.message()),
    }
}

fn try_resolve(
    envs: &[(&str, &str)],
    present_paths: &[&str],
    release_build_requires_real_workbench: bool,
) -> Result<ResolvedWorkbenchUrl, WorkbenchResolveError> {
    let value = |key: &str| envs.iter().rev().find(|(k, _)| *k == key).map(|(_, v)| v.to_string());
    let env = WorkbenchEnvironment {
        url: value(WORKBENCH_URL_ENV),
        path: value(WORKBENCH_PATH_ENV),
        require_real_workbench: value(REQUIRE_REAL_WORKBENCH_ENV),
    };
    let repo_root = "/repo";
    let files = WorkbenchFiles {
        existing: present_paths.iter().map(|p| resolve_workbench_path(repo_root, p)).collect(),
        canonical: Vec::new(),
    };
    check_workbench_resolution(&env, &files, repo_root, release_build_requires_real_workbench)?;
    Ok(resolve_workbench_url_with_release_policy(&env, &files, repo_root, release_build_requires_real_workbench))
}

fn packaged_present_path(path: &str) -> String {
    format!("{PACKAGED_APP_DIR}/{path}")
}

#[test]
fn uses_scaffold_fallback_when_real_workbench_not_required() {
    assert_eq!(resolve_for(&[], &[]), ResolvedWorkbenchUrl::App(FALLBACK_APP_ENTRY));
}

#[test]
fn packaged_app_asset_wins_over_source_checkout_workbench() {
    let packaged_workbench = packaged_present_path(DEFAULT_WORKBENCH_ENTRY);

    assert_eq!(
        resolve_for(&[], &[packaged_workbench.as_str(), DEFAULT_WORKBENCH_ENTRY]),
        ResolvedWorkbenchUrl::App(DEFAULT_WORKBENCH_ENTRY)
    );
}

#[test]
fn packaged_app_asset_resolves_to_default_workbench_entry() {
    let packaged_workbench = packaged_present_path(DEFAULT_WORKBENCH_ENTRY);

    assert_eq!(resolve_for(&[], &[packaged_workbench.as_str()]), ResolvedWorkbenchUrl::App(DEFAULT_WORKBENCH_ENTRY));
}

#[test]
fn default_resolver_does_not_use_source_checkout_when_packaged_asset_exists() {
    let packaged_workbench = packaged_present_path(DEFAULT_WORKBENCH_ENTRY);

    assert_eq!(
        resolve_for(&[], &[packaged_workbench.as_str(), DEFAULT_WORKBENCH_ENTRY]),
        ResolvedWorkbenchUrl::App(DEFAULT_WORKBENCH_ENTRY)
    );
}

#[test]
fn release_resolver_does_not_use_source_checkout_when_packaged_asset_exists() {
    let packaged_workbench = packaged_present_path(DEFAULT_WORKBENCH_ENTRY);
    assert_eq!(
        resolve_for_release_policy(&[], &[packaged_workbench.as_str(), DEFAULT_WORKBENCH_ENTRY], true),
        ResolvedWorkbenchUrl::App(DEFAULT_WORKBENCH_ENTRY)
    );
}

#[test]
#[should_panic(
    expected = "CODE_TAURI_REQUIRE_REAL_WORKBENCH=1 requires existing CODE_TAURI_WORKBENCH_PATH or bundled workbench out/vs/code/browser/workbench/workbench.html; refusing developer scaffold fallback src-tauri/www/index.html"
)]
fn rejects_scaffold_fallback_when_real_workbench_required() {
    resolve_for(&[(REQUIRE_REAL_WORKBENCH_ENV, "1")], &[]);
}

#[test]
#[should_panic(
    expected = "CODE_TAURI_REQUIRE_REAL_WORKBENCH=1 requires existing CODE_TAURI_WORKBENCH_PATH or bundled workbench out/vs/code/browser/workbench/workbench.html; refusing developer scaffold fallback src-tauri/www/index.html"
)]
fn rejects_scaffold_fallback_when_release_requires_real_workbench() {
    resolve_for_release_policy(&[], &[], true);
}

#[test]
#[should_panic(
    expected = "CODE_TAURI_REQUIRE_REAL_WORKBENCH=1 requires existing CODE_TAURI_WORKBENCH_PATH or bundled workbench out/vs/code/browser/workbench/workbench.html; refusing developer scaffold fallback src-tauri/www/index.html"
)]
fn rejects_scaffold_fallback_asset_when_release_requires_real_workbench() {
    resolve_for_release_policy(&[], &[FALLBACK_APP_ENTRY_DISPLAY], true);
}

#[test]
fn uses_packaged_workbench_asset_when_release_requires_real_workbench() {
    let packaged_workbench = packaged_present_path(DEFAULT_WORKBENCH_ENTRY);

    assert_eq!(
        resolve_for_release_policy(&[], &[packaged_workbench.as_str()], true),
        ResolvedWorkbenchUrl::App(DEFAULT_WORKBENCH_ENTRY)
    );
}

#[test]
#[should_panic(
    expected = "CODE_TAURI_REQUIRE_REAL_WORKBENCH=1 requires existing CODE_TAURI_WORKBENCH_PATH or bundled workbench out/vs/code/browser/workbench/workbench.html; refusing developer scaffold fallback src-tauri/www/index.html"
)]
fn rejects_explicit_scaffold_path_when_real_workbench_required() {
    resolve_for(
        &[(REQUIRE_REAL_WORKBENCH_ENV, "1"), (WORKBENCH_PATH_ENV, FALLBACK_APP_ENTRY_DISPLAY)],
        &[FALLBACK_APP_ENTRY_DISPLAY],
    );
}

#[test]
#[should_panic(
    expected = "CODE_TAURI_REQUIRE_REAL_WORKBENCH=1 requires existing CODE_TAURI_WORKBENCH_PATH or bundled workbench out/vs/code/browser/workbench/workbench.html; refusing developer scaffold fallback src-tauri/www/index.html"
)]
fn rejects_explicit_scaffold_path_when_release_requires_real_workbench() {
    resolve_for_release_policy(
        &[(WORKBENCH_PATH_ENV, FALLBACK_APP_ENTRY_DISPLAY)],
        &[FALLBACK_APP_ENTRY_DISPLAY],
        true,
    );
}

#[test]
#[should_panic(
    expected = "CODE_TAURI_REQUIRE_REAL_WORKBENCH=1 requires existing CODE_TAURI_WORKBENCH_PATH or bundled workbench out/vs/code/browser/workbench/workbench.html; refusing developer scaffold fallback src-tauri/www/index.html"
)]
fn rejects_normalized_explicit_scaffold_path_when_real_workbench_required() {
    resolve_for(
        &[(REQUIRE_REAL_WORKBENCH_ENV, "1"), (WORKBENCH_PATH_ENV, "./src-tauri/../src-tauri/www/index.html")],
        &[FALLBACK_APP_ENTRY_DISPLAY],
    );
}

#[test]
fn allows_explicit_scaffold_path_when_real_workbench_not_required() {
    assert_eq!(
        resolve_for(&[(WORKBENCH_PATH_ENV, FALLBACK_APP_ENTRY_DISPLAY)], &[FALLBACK_APP_ENTRY_DISPLAY]),
        ResolvedWorkbenchUrl::File("/repo/src-tauri/www/index.html".to_string())
    );
}

#[test]
#[should_panic(
    expected = "CODE_TAURI_REQUIRE_REAL_WORKBENCH=1 rejects CODE_TAURI_WORKBENCH_URL; bundled workbench out/vs/code/browser/workbench/workbench.html is required"
)]
fn rejects_explicit_url_when_real_workbench_required() {
    resolve_for(&[(REQUIRE_REAL_WORKBENCH_ENV, "1"), (WORKBENCH_URL_ENV, "https://example.test/workbench")], &[]);
}

#[test]
#[should_panic(
    expected = "CODE_TAURI_REQUIRE_REAL_WORKBENCH=1 rejects CODE_TAURI_WORKBENCH_URL; bundled workbench out/vs/code/browser/workbench/workbench.html is required"
)]
fn rejects_explicit_url_when_release_requires_real_workbench() {
    resolve_for_release_policy(&[(WORKBENCH_URL_ENV, "https://example.test/workbench")], &[], true);
}

#[test]
fn allows_explicit_url_in_debug_when_real_workbench_not_required() {
    assert_eq!(
        resolve_for_release_policy(&[(WORKBENCH_URL_ENV, "https://example.test/workbench")], &[], false),
        ResolvedWorkbenchUrl::External("https://example.test/workbench".to_string())
    );
}

#[test]
fn explicit_path_wins_over_detected_workbench() {
    assert_eq!(
        resolve_for(
            &[(WORKBENCH_PATH_ENV, "/custom/workbench.html")],
            &["/custom/workbench.html", DEFAULT_WORKBENCH_ENTRY],
        ),
        ResolvedWorkbenchUrl::File("/custom/workbench.html".to_string())
    );
}

#[test]
fn missing_explicit_path_falls_through_to_detected_workbench() {
    assert_eq!(
        resolve_for(&[(WORKBENCH_PATH_ENV, "/missing/workbench.html")], &[DEFAULT_WORKBENCH_ENTRY]),
        ResolvedWorkbenchUrl::File("/repo/out/vs/code/browser/workbench/workbench.html".to_string())
    );
}

#[test]
fn rejects_non_workbench_explicit_path_when_real_workbench_required() {
    let result = try_resolve(
        &[(REQUIRE_REAL_WORKBENCH_ENV, "on"), (WORKBENCH_PATH_ENV, "/custom/workbench.html")],
        &["/custom/workbench.html"],
        false,
    );

    assert!(result.is_err());
}

#[test]
fn rejects_non_workbench_explicit_path_when_release_requires_real_workbench() {
    let result = try_resolve(&[(WORKBENCH_PATH_ENV, "/custom/workbench.html")], &["/custom/workbench.html"], true);

    assert!(result.is_err());
}

#[test]
fn allows_source_explicit_path_when_real_workbench_required() {
    assert_eq!(
        resolve_for(
            &[(REQUIRE_REAL_WORKBENCH_ENV, "on"), (WORKBENCH_PATH_ENV, DEFAULT_WORKBENCH_ENTRY)],
            &[DEFAULT_WORKBENCH_ENTRY],
        ),
        ResolvedWorkbenchUrl::File("/repo/out/vs/code/browser/workbench/workbench.html".to_string())
    );
}

#[test]
fn explicit_workbench_path_still_wins_for_source_ci_when_packaged_asset_exists() {
    let packaged_workbench = packaged_present_path(DEFAULT_WORKBENCH_ENTRY);

    assert_eq!(
        resolve_for(
            &[(WORKBENCH_PATH_ENV, DEFAULT_WORKBENCH_ENTRY)],
            &[packaged_workbench.as_str(), DEFAULT_WORKBENCH_ENTRY],
        ),
        ResolvedWorkbenchUrl::File("/repo/out/vs/code/browser/workbench/workbench.html".to_string())
    );
}

#[test]
#[should_panic(
    expected = "CODE_TAURI_REQUIRE_REAL_WORKBENCH=1 requires existing CODE_TAURI_WORKBENCH_PATH or bundled workbench out/vs/code/browser/workbench/workbench.html; refusing developer scaffold fallback src-tauri/www/index.html"
)]
fn rejects_missing_explicit_path_when_release_requires_real_workbench() {
    resolve_for_release_policy(&[(WORKBENCH_PATH_ENV, "/missing/workbench.html")], &[], true);
}

#[test]
fn allows_source_explicit_path_when_release_requires_real_workbench() {
    assert_eq!(
        resolve_for_release_policy(&[(WORKBENCH_PATH_ENV, DEFAULT_WORKBENCH_ENTRY)], &[DEFAULT_WORKBENCH_ENTRY], true),
        ResolvedWorkbenchUrl::File("/repo/out/vs/code/browser/workbench/workbench.html".to_string())
    );
}

#[test]
fn allows_packaged_explicit_path_when_release_requires_real_workbench() {
    let packaged_workbench = packaged_present_path(DEFAULT_WORKBENCH_ENTRY);

    assert_eq!(
        resolve_for_release_policy(
            &[(WORKBENCH_PATH_ENV, packaged_workbench.as_str())],
            &[packaged_workbench.as_str()],
            true,
        ),
        ResolvedWorkbenchUrl::File("/repo/src-tauri/www/out/vs/code/browser/workbench/workbench.html".to_string())
    );
}

#[test]
#[should_panic(
    expected = "CODE_TAURI_REQUIRE_REAL_WORKBENCH=1 requires existing CODE_TAURI_WORKBENCH_PATH or bundled workbench out/vs/code/browser/workbench/workbench.html; refusing developer scaffold fallback src-tauri/www/index.html"
)]
fn rejects_explicit_scaffold_path_when_release_requires_real_workbench_even_if_detected_exists() {
    resolve_for_release_policy(
        &[(WORKBENCH_PATH_ENV, FALLBACK_APP_ENTRY_DISPLAY)],
        &[FALLBACK_APP_ENTRY_DISPLAY, DEFAULT_WORKBENCH_ENTRY],
        true,
    );
}

#[test]
fn allows_detected_workbench_when_real_workbench_required() {
    assert_eq!(
        resolve_for(&[(REQUIRE_REAL_WORKBENCH_ENV, "true")], &[DEFAULT_WORKBENCH_ENTRY]),
        ResolvedWorkbenchUrl::File("/repo/out/vs/code/browser/workbench/workbench.html".to_string())
    );
}

#[test]
fn allows_detected_workbench_when_release_requires_real_workbench() {
    assert_eq!(
        resolve_for_release_policy(&[], &[DEFAULT_WORKBENCH_ENTRY], true),
        ResolvedWorkbenchUrl::File("/repo/out/vs/code/browser/workbench/workbench.html".to_string())
    );
}

#[test]
fn env_flag_accepts_the_usual_truthy_spellings() {
    for value in ["1", "true", "TRUE", "yes", "On"] {
        assert!(env_flag(Some(value)));
    }
    for value in ["0", "false", "", "enabled"] {
        assert!(!env_flag(Some(value)));
    }
    assert!(!env_flag(None));
}

#[test]
fn lexical_normalization_drops_dot_and_resolves_parent_components() {
    assert!(paths_equal("/repo/./src-tauri/../src-tauri/www/index.html", "/repo/./src-tauri/../src-tauri/www/index.html"));
    let a = lexical_normalize_path("/repo/./src-tauri/../src-tauri/www/index.html");
    assert!(a.has_root);
    assert_eq!(a.parts, vec!["repo", "src-tauri", "www", "index.html"]);
    let b = lexical_normalize_path("../a/../b");
    assert!(!b.has_root);
    assert_eq!(b.parts, vec!["..", "b"]);
    let c = lexical_normalize_path("/../x");
    assert!(c.has_root);
    assert_eq!(c.parts, vec!["x"]);
}
