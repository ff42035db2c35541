use vscode_portal::extension::{
    descriptor_to_extension, get_extension_name, normalize_target_platform, parse_ext_line,
    Extension, SpecSource,
};

fn parsed(line: &str) -> Extension {
    parse_ext_line(line).expect("line should parse")
}

#[test]
fn inline_round_trip_full_form() {
    let e = parsed("pub.pkg@ver=plat");
    assert_eq!(e.get_extension_name(), "pub.pkg@ver=plat");
}

#[test]
fn inline_round_trip_real_name() {
    let e = parsed("ms-python.python@2024.1.0=linux-x64");
    assert_eq!(e.publisher, "ms-python");
    assert_eq!(e.package, "python");
    assert_eq!(e.version.as_deref(), Some("2024.1.0"));
    assert_eq!(e.platform.as_deref(), Some("linux-x64"));
    assert_eq!(e.get_extension_name(), "ms-python.python@2024.1.0=linux-x64");
}

#[test]
fn inline_without_dot_is_dropped() {
    assert!(parse_ext_line("nodot").is_none());
}

#[test]
fn inline_empty_publisher_or_package_is_dropped() {
    assert!(parse_ext_line(".pkg").is_none());
    assert!(parse_ext_line("pub.").is_none());
    assert!(parse_ext_line("").is_none());
}

#[test]
fn inline_bare_name() {
    let e = parsed("rust-lang.rust-analyzer");
    assert_eq!(e.publisher, "rust-lang");
    assert_eq!(e.package, "rust-analyzer");
    assert!(e.version.is_none());
    assert!(e.platform.is_none());
}

#[test]
fn inline_version_only() {
    let e = parsed("a.b@1.0");
    assert_eq!(e.version.as_deref(), Some("1.0"));
    assert!(e.platform.is_none());
    assert_eq!(e.get_extension_name(), "a.b@1.0");
}

#[test]
fn inline_platform_only() {
    let e = parsed("a.b=linux-arm64");
    assert!(e.version.is_none());
    assert_eq!(e.platform.as_deref(), Some("linux-arm64"));
}

#[test]
fn inline_vsix_suffix_is_stripped() {
    let e = parsed("a.b@1.0=linux-x64.vsix");
    assert_eq!(e.get_extension_name(), "a.b@1.0=linux-x64");
}

#[test]
fn inline_is_trimmed() {
    let e = parsed("  a.b@1.0  ");
    assert_eq!(e.get_extension_name(), "a.b@1.0");
}

#[test]
fn package_keeps_extra_dots() {
    let e = parsed("a.b.c");
    assert_eq!(e.publisher, "a");
    assert_eq!(e.package, "b.c");
}

#[test]
fn free_get_extension_name_builds_all_shapes() {
    assert_eq!(get_extension_name("p", "k", None, None), "p.k");
    assert_eq!(get_extension_name("p", "k", Some("1"), None), "p.k@1");
    assert_eq!(get_extension_name("p", "k", None, Some("web")), "p.k=web");
    assert_eq!(get_extension_name("p", "k", Some("1"), Some("web")), "p.k@1=web");
}

#[test]
fn normalize_undefined_and_none_drop_platform() {
    assert_eq!(normalize_target_platform(Some("undefined".to_string())), None);
    assert_eq!(normalize_target_platform(Some("none".to_string())), None);
    assert_eq!(
        normalize_target_platform(Some("linux-x64".to_string())),
        Some("linux-x64".to_string())
    );
    assert_eq!(normalize_target_platform(None), None);
}

#[test]
fn descriptor_overrides_version_and_platform() {
    let e = descriptor_to_extension("a.b@9.9", Some("1.0".to_string()), Some("web".to_string()))
        .expect("descriptor should parse");
    assert_eq!(e.get_extension_name(), "a.b@1.0=web");
}

#[test]
fn descriptor_with_undefined_platform_has_none() {
    let e = descriptor_to_extension("a.b", Some("1.0".to_string()), Some("undefined".to_string()))
        .expect("descriptor should parse");
    assert!(e.platform.is_none());
    assert_eq!(e.get_extension_name(), "a.b@1.0");
}

fn names_of(sources: Vec<SpecSource>) -> Vec<String> {
    vscode_portal::extension::list_extensions(&sources)
        .expect("sources should gather")
        .iter()
        .map(|e| e.get_extension_name())
        .collect()
}

fn file_source(path: &str, content: &str) -> SpecSource {
    SpecSource::FileContent {
        path: path.to_string(),
        content: content.to_string(),
    }
}

#[test]
fn single_invalid_token_yields_empty_list() {
    let names = names_of(vec![SpecSource::Inline("nodot".to_string())]);
    assert!(names.is_empty());
}

#[test]
fn list_sorts_by_canonical_name() {
    let names = names_of(vec![
        SpecSource::Inline("z.z".to_string()),
        SpecSource::Inline("a.a".to_string()),
        SpecSource::Inline("m.m@2".to_string()),
    ]);
    assert_eq!(names, vec!["a.a", "m.m@2", "z.z"]);
}

#[test]
fn list_drops_malformed_and_dedups() {
    let names = names_of(vec![
        SpecSource::Inline("a.b@1".to_string()),
        SpecSource::Inline("nodot".to_string()),
        SpecSource::Inline("a.b@1".to_string()),
    ]);
    assert_eq!(names, vec!["a.b@1"]);
}

#[test]
fn json_array_with_duplicate_ids_dedups_to_one() {
    let content = "[{\"identifier\": {\"id\": \"ms-python.python\"}, \"version\": \"1.0\"},{\"identifier\": {\"id\": \"ms-python.python\"}, \"version\": \"1.0\"}]";
    let names = names_of(vec![file_source("extensions.json", content)]);
    assert_eq!(names, vec!["ms-python.python@1.0"]);
}

#[test]
fn json_descriptor_object_parses() {
    let content = "{\"identifier\": {\"id\": \"a.b\"}, \"version\": \"2.0\", \"metadata\": {\"targetPlatform\": \"linux-x64\"}}";
    let names = names_of(vec![file_source("extensions.json", content)]);
    assert_eq!(names, vec!["a.b@2.0=linux-x64"]);
}

#[test]
fn json_descriptor_platform_none_normalizes() {
    let content =
        "{\"identifier\": {\"id\": \"a.b\"}, \"metadata\": {\"targetPlatform\": \"none\"}}";
    let names = names_of(vec![file_source("extensions.json", content)]);
    assert_eq!(names, vec!["a.b"]);
}

#[test]
fn json_descriptor_without_id_yields_nothing() {
    let names = names_of(vec![file_source("one.json", "{\"version\": \"1.0\"}")]);
    assert!(names.is_empty());
}

#[test]
fn malformed_json_manifest_aborts_naming_the_file() {
    let sources = vec![file_source("bad/extensions.json", "[not json")];
    let r = vscode_portal::extension::list_extensions(&sources);
    assert_eq!(r.unwrap_err(), "parse json failed from bad/extensions.json");
}

#[test]
fn plain_report_lines_parse_and_skip_blanks() {
    let content = "a.b@1.0\n\nnodot\nc.d\n";
    let names = names_of(vec![file_source("extensions.json", content)]);
    assert_eq!(names, vec!["a.b@1.0", "c.d"]);
}

#[test]
fn mixed_sources_combine_and_sort() {
    let names = names_of(vec![
        SpecSource::Inline("z.z".to_string()),
        file_source("report.txt", "a.a\nb.b@1\n"),
    ]);
    assert_eq!(names, vec!["a.a", "b.b@1", "z.z"]);
}
