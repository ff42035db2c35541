use vscode_portal::cli::{failed_names, join_spaces, DownloadOutcome};
use vscode_portal::extension::Extension;
use vscode_portal::server::{
    archive_extension, archive_kind, get_platform_info, latest_release_url, parse_latest_commit,
    release_archive_base, release_commit_dir, server_download_url, server_plan, server_prefix,
    ArchiveKind,
};

#[test]
fn host_macos_aarch64_normalizes_to_darwin_arm64() {
    let (platform, arch) = get_platform_info(&None, &None, "macos", "aarch64");
    assert_eq!(platform, "darwin");
    assert_eq!(arch, "arm64");
    assert_eq!(server_prefix(&platform), "server-darwin");
}

#[test]
fn host_mappings_cover_the_fixed_table() {
    assert_eq!(get_platform_info(&None, &None, "linux", "x86_64"), ("linux".to_string(), "x64".to_string()));
    assert_eq!(get_platform_info(&None, &None, "windows", "arm"), ("win32".to_string(), "armhf".to_string()));
}

#[test]
fn unknown_host_identifiers_pass_through() {
    let (platform, arch) = get_platform_info(&None, &None, "plan9", "mips");
    assert_eq!(platform, "plan9");
    assert_eq!(arch, "mips");
}

#[test]
fn overrides_win_over_host_mapping() {
    let (platform, arch) = get_platform_info(
        &Some("alpine".to_string()),
        &Some("arm64".to_string()),
        "macos",
        "x86_64",
    );
    assert_eq!(platform, "alpine");
    assert_eq!(arch, "arm64");
}

#[test]
fn alpine_uses_the_standalone_prefix() {
    assert_eq!(server_prefix("alpine"), "cli-alpine");
    assert_eq!(server_prefix("linux"), "server-linux");
}

#[test]
fn server_plan_lays_out_a_run() {
    let plan = server_plan(&None, &None, &None, "macos", "aarch64");
    assert_eq!(plan.platform, "darwin");
    assert_eq!(plan.arch, "arm64");
    assert_eq!(plan.prefix, "server-darwin");
    assert_eq!(plan.output_dir, ".");
    assert_eq!(
        plan.commits_url,
        "https://update.code.visualstudio.com/api/commits/stable/darwin-arm64"
    );
}

#[test]
fn release_urls_are_exact() {
    assert_eq!(
        latest_release_url("linux", "x64"),
        "https://update.code.visualstudio.com/api/commits/stable/linux-x64"
    );
    assert_eq!(
        server_download_url("abc123", "server-linux", "x64"),
        "https://update.code.visualstudio.com/commit:abc123/server-linux-x64/stable"
    );
}

#[test]
fn latest_commit_is_the_first_array_element() {
    let url = "https://update.code.visualstudio.com/api/commits/stable/linux-x64";
    assert_eq!(
        parse_latest_commit("[\"first\", \"second\"]", url),
        Ok("first".to_string())
    );
}

#[test]
fn latest_commit_errors_name_the_url() {
    let url = "https://update.code.visualstudio.com/api/commits/stable/linux-x64";
    let expected = Err(format!("query vscode server commit id failed, url {}", url));
    assert_eq!(parse_latest_commit("[]", url), expected);
    assert_eq!(parse_latest_commit("{}", url), expected);
    assert_eq!(parse_latest_commit("not json", url), expected);
    assert_eq!(parse_latest_commit("[42]", url), expected);
}

#[test]
fn archive_extension_widens_tar_and_falls_back() {
    assert_eq!(archive_extension(Some("vscode-server-linux-x64.tar.gz")), ".tar.gz");
    assert_eq!(archive_extension(Some("bundle.zip")), ".zip");
    assert_eq!(archive_extension(Some("release.tar.bz2")), ".tar.bz2");
    assert_eq!(archive_extension(Some("noext")), ".tar.gz");
    assert_eq!(archive_extension(None), ".tar.gz");
}

#[test]
fn archive_kind_dispatches_by_extension() {
    assert!(matches!(archive_kind("x.tar.gz"), Ok(ArchiveKind::TarGz)));
    assert!(matches!(archive_kind("x.zip"), Ok(ArchiveKind::Zip)));
    assert_eq!(
        archive_kind("x.rar").unwrap_err(),
        "unable to extract file x.rar"
    );
}

#[test]
fn release_paths_are_exact() {
    assert_eq!(
        release_archive_base("server-linux", "x64", "abc"),
        "vscode-server-linux-x64-abc"
    );
    assert_eq!(release_commit_dir("out", "abc", '/'), "out/bin/abc");
}

#[test]
fn invalid_platform_is_refused_with_the_choice_list() {
    let e = Extension {
        publisher: "a".to_string(),
        package: "b".to_string(),
        version: None,
        platform: Some("sparc".to_string()),
    };
    let msg = e.check_platform().unwrap_err();
    assert_eq!(
        msg,
        "invalid platform sparc, choices in (win32-x64, win32-ia32, win32-arm64, linux-x64, linux-arm64, linux-armhf, darwin-x64, darwin-arm64, alpine-x64, web, alpine-arm64)"
    );
}

#[test]
fn valid_and_absent_platforms_pass_the_check() {
    let mut e = Extension {
        publisher: "a".to_string(),
        package: "b".to_string(),
        version: None,
        platform: Some("linux-x64".to_string()),
    };
    assert!(e.check_platform().is_ok());
    e.platform = None;
    assert!(e.check_platform().is_ok());
}

#[test]
fn failure_summary_keeps_run_order() {
    let results = vec![
        ("a.a".to_string(), true),
        ("b.b".to_string(), false),
        ("c.c".to_string(), true),
        ("d.d".to_string(), false),
    ];
    let failed = failed_names(&results);
    assert_eq!(failed, vec!["b.b", "d.d"]);
    assert_eq!(join_spaces(&failed), "b.b d.d");
    assert_eq!(join_spaces(&Vec::new()), "");
}

#[test]
fn outcome_success_excludes_failures() {
    assert!(DownloadOutcome::Downloaded.is_success());
    assert!(DownloadOutcome::AlreadyPresent.is_success());
    assert!(!DownloadOutcome::Failed("boom".to_string()).is_success());
}
