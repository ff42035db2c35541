use vscode_portal::extension::{
    parse_query_response, query_headers, query_payload, query_url, select_version, Extension,
    VersionEntry,
};

fn entry(version: Option<&str>, platform: Option<&str>) -> VersionEntry {
    VersionEntry {
        version: version.map(str::to_string),
        target_platform: platform.map(str::to_string),
    }
}

fn spec(version: Option<&str>, platform: Option<&str>) -> Extension {
    Extension {
        publisher: "a".to_string(),
        package: "b".to_string(),
        version: version.map(str::to_string),
        platform: platform.map(str::to_string),
    }
}

#[test]
fn pinned_version_picks_the_matching_entry() {
    let entries = vec![
        entry(Some("1.0.0"), Some("win32-x64")),
        entry(Some("2024.1.0"), Some("linux-x64")),
        entry(Some("2024.1.0"), Some("darwin-x64")),
    ];
    let r = select_version(&Some("2024.1.0".to_string()), &None, &entries);
    assert_eq!(r, Some(("2024.1.0".to_string(), Some("linux-x64".to_string()))));
}

#[test]
fn pinned_version_matching_platformless_entry_yields_no_platform() {
    let entries = vec![
        entry(Some("1.0.0"), Some("win32-x64")),
        entry(Some("2.0.0"), None),
    ];
    let r = select_version(&Some("2.0.0".to_string()), &None, &entries);
    assert_eq!(r, Some(("2.0.0".to_string(), None)));
}

#[test]
fn entry_without_version_is_skipped() {
    let entries = vec![entry(None, Some("linux-x64")), entry(Some("3.1.4"), None)];
    let r = select_version(&None, &None, &entries);
    assert_eq!(r, Some(("3.1.4".to_string(), None)));
}

#[test]
fn unpinned_request_takes_the_first_versioned_entry() {
    let entries = vec![
        entry(Some("9.0"), Some("darwin-arm64")),
        entry(Some("8.0"), None),
    ];
    let r = select_version(&None, &None, &entries);
    assert_eq!(r, Some(("9.0".to_string(), Some("darwin-arm64".to_string()))));
}

#[test]
fn pinned_platform_must_match_exactly() {
    let entries = vec![
        entry(Some("1.0"), None),
        entry(Some("1.0"), Some("darwin-x64")),
        entry(Some("1.0"), Some("linux-x64")),
    ];
    let r = select_version(&None, &Some("linux-x64".to_string()), &entries);
    assert_eq!(r, Some(("1.0".to_string(), Some("linux-x64".to_string()))));
}

#[test]
fn no_matching_entry_yields_none() {
    let entries = vec![entry(Some("1.0"), Some("web"))];
    let r = select_version(&Some("2.0".to_string()), &None, &entries);
    assert_eq!(r, None);
}

#[test]
fn query_version_reports_the_failing_extension() {
    let e = spec(Some("2.0"), None);
    let r = e.query_version(&vec![entry(Some("1.0"), None)]);
    assert_eq!(r, Err("query extension a.b for version failed".to_string()));
}

#[test]
fn query_version_resolves() {
    let e = spec(None, None);
    let r = e.query_version(&vec![entry(Some("5.0"), Some("web"))]);
    assert_eq!(r, Ok(("5.0".to_string(), Some("web".to_string()))));
}

#[test]
fn query_payload_has_the_documented_shape() {
    let p = query_payload("ms-python", "python", None);
    assert_eq!(
        p,
        "{\"flags\": 85, \"filters\": [{\"criteria\": [{\"filterType\": 7, \"value\": \"ms-python.python\"}], \"pageNumber\": 1, \"pageSize\": 10}]}"
    );
}

#[test]
fn query_payload_escapes_the_name() {
    let p = query_payload("a\"b", "c\\d", Some(1));
    assert_eq!(
        p,
        "{\"flags\": 1, \"filters\": [{\"criteria\": [{\"filterType\": 7, \"value\": \"a\\\"b.c\\\\d\"}], \"pageNumber\": 1, \"pageSize\": 10}]}"
    );
}

#[test]
fn query_payload_escapes_control_characters() {
    let p = query_payload("a\u{1}b", "c", Some(2));
    assert!(p.contains("\"a\\u0001b.c\""));
    let v: serde_json::Value = serde_json::from_str(&p).expect("payload must be JSON");
    assert_eq!(
        v["filters"][0]["criteria"][0]["value"],
        serde_json::Value::from("a\u{1}b.c")
    );
}

#[test]
fn query_payload_is_valid_json() {
    let p = query_payload("ms-python", "python", None);
    let v: serde_json::Value = serde_json::from_str(&p).expect("payload must be JSON");
    assert_eq!(v["flags"], serde_json::Value::from(85u64));
    assert_eq!(
        v["filters"][0]["criteria"][0]["value"],
        serde_json::Value::from("ms-python.python")
    );
    assert_eq!(v["filters"][0]["pageSize"], serde_json::Value::from(10u64));
}

#[test]
fn query_endpoint_and_headers_are_fixed() {
    assert_eq!(
        query_url(),
        "https://marketplace.visualstudio.com/_apis/public/gallery/extensionQuery"
    );
    let hs = query_headers();
    assert_eq!(hs.len(), 3);
    assert_eq!(hs[0].0, "Content-Type");
    assert_eq!(hs[0].1, "application/json");
    assert_eq!(hs[1].0, "Accept");
    assert_eq!(hs[1].1, "application/json;api-version=3.0-preview.1");
    assert_eq!(hs[2].0, "User-Agent");
    assert_eq!(hs[2].1, "Offline VSIX/1.0");
}

#[test]
fn parse_query_response_reads_the_first_record() {
    let text = "{\"results\": [{\"extensions\": [{\"versions\": [{\"version\": \"1.2.3\", \"targetPlatform\": \"linux-x64\"},{\"version\": \"1.2.2\"}]}]}]}";
    let entries =
        parse_query_response("ms-python", "python", text).expect("response should carry a record");
    assert_eq!(entries.len(), 2);
    assert_eq!(entries[0].version.as_deref(), Some("1.2.3"));
    assert_eq!(entries[0].target_platform.as_deref(), Some("linux-x64"));
    assert_eq!(entries[1].version.as_deref(), Some("1.2.2"));
    assert_eq!(entries[1].target_platform, None);
}

#[test]
fn parse_query_response_without_record_is_the_no_data_error() {
    let r = parse_query_response("a", "b", "{\"results\": []}");
    assert_eq!(r.unwrap_err(), "no data found in query response");
    let r = parse_query_response("a", "b", "{\"results\": [{\"extensions\": []}]}");
    assert_eq!(r.unwrap_err(), "no data found in query response");
}

#[test]
fn parse_query_response_on_non_json_names_the_extension() {
    let r = parse_query_response("ms-python", "python", "not even json");
    assert_eq!(r.unwrap_err(), "query extension ms-python.python info failed");
}

#[test]
fn end_to_end_resolution_from_response_text() {
    let text = "{\"results\": [{\"extensions\": [{\"versions\": [{\"version\": \"9.9.9\", \"targetPlatform\": \"win32-x64\"},{\"version\": \"2024.1.0\", \"targetPlatform\": \"linux-x64\"}]}]}]}";
    let e = Extension {
        publisher: "ms-python".to_string(),
        package: "python".to_string(),
        version: Some("2024.1.0".to_string()),
        platform: None,
    };
    let entries = parse_query_response(&e.publisher, &e.package, text).unwrap();
    let (version, platform) = e.query_version(&entries).unwrap();
    assert_eq!(version, "2024.1.0");
    assert_eq!(platform.as_deref(), Some("linux-x64"));
}
