use std::io::Write;

use vscode_portal::extension::{extension_download_url, parse_ext_line};
use vscode_portal::fetch::{
    body_file_name, decode_body, fetch_decision, head_file_name, output_file_path,
    range_header_value, FetchDecision,
};
use vscode_portal::headers::{
    parse_http_header_content_disposition, parse_http_header_content_encoding,
};

fn gzip_bytes(payload: &[u8]) -> Vec<u8> {
    let mut encoder =
        flate2::write::GzEncoder::new(Vec::new(), flate2::Compression::default());
    encoder.write_all(payload).expect("encode");
    encoder.finish().expect("finish")
}

#[test]
fn cached_and_present_skips_the_fetch() {
    assert!(matches!(fetch_decision(Some(true), true), FetchDecision::Skip));
    assert!(matches!(fetch_decision(None, true), FetchDecision::Skip));
}

#[test]
fn absent_destination_downloads_with_resume_matching_cache_mode() {
    assert!(matches!(
        fetch_decision(Some(true), false),
        FetchDecision::Download { resume: true }
    ));
    assert!(matches!(
        fetch_decision(None, false),
        FetchDecision::Download { resume: true }
    ));
    assert!(matches!(
        fetch_decision(Some(false), false),
        FetchDecision::Download { resume: false }
    ));
}

#[test]
fn cache_off_redownloads_even_when_present() {
    assert!(matches!(
        fetch_decision(Some(false), true),
        FetchDecision::Download { resume: false }
    ));
}

#[test]
fn gzip_encoded_body_is_decompressed() {
    let header = "HTTP/1.1 200 OK\r\nContent-Type: application/octet-stream\r\nContent-Encoding: gzip\r\n\r\n";
    let body = gzip_bytes(b"the real artifact bytes");
    let out = decode_body(header, body).expect("decode");
    assert_eq!(out, b"the real artifact bytes");
}

#[test]
fn unencoded_body_passes_through() {
    let header = "HTTP/1.1 200 OK\r\nContent-Type: application/octet-stream\r\n\r\n";
    let body = b"plain bytes".to_vec();
    let out = decode_body(header, body.clone()).expect("decode");
    assert_eq!(out, body);
}

#[test]
fn announced_gzip_that_does_not_decompress_is_an_error() {
    let header = "HTTP/1.1 200 OK\r\nContent-Encoding: gzip\r\n\r\n";
    let r = decode_body(header, b"not gzip at all".to_vec());
    assert_eq!(r, Err("decode gzip content failed".to_string()));
}

#[test]
fn content_encoding_is_found_case_folded_and_trimmed() {
    let header = "HTTP/1.1 200 OK\r\nContent-Encoding:  GZip \r\nServer: x\r\n";
    assert_eq!(
        parse_http_header_content_encoding(header),
        Some("gzip".to_string())
    );
}

#[test]
fn missing_content_encoding_is_none() {
    let header = "HTTP/1.1 200 OK\r\nServer: x\r\n";
    assert_eq!(parse_http_header_content_encoding(header), None);
}

#[test]
fn content_disposition_filename_is_read() {
    let header = "HTTP/1.1 200 OK\r\nContent-Disposition: attachment; filename=vscode-server-linux-x64.tar.gz\r\n";
    assert_eq!(
        parse_http_header_content_disposition(header),
        Some("vscode-server-linux-x64.tar.gz".to_string())
    );
}

#[test]
fn content_disposition_filename_star_wins_and_drops_charset() {
    let header =
        "Content-Disposition: attachment; filename=plain.zip; filename*=UTF-8''fancy.zip\r\n";
    assert_eq!(
        parse_http_header_content_disposition(header),
        Some("fancy.zip".to_string())
    );
}

#[test]
fn content_disposition_without_filename_is_none() {
    let header = "Content-Disposition: inline\r\nContent-Type: text/plain\r\n";
    assert_eq!(parse_http_header_content_disposition(header), None);
    assert_eq!(parse_http_header_content_disposition("Server: x\r\n"), None);
}

#[test]
fn transfer_file_names_sit_beside_the_destination() {
    assert_eq!(body_file_name("dir/a.vsix"), "dir/a.vsix.downloading");
    assert_eq!(head_file_name("dir/a.vsix"), "dir/a.vsix.header");
}

#[test]
fn output_path_joins_with_the_separator() {
    assert_eq!(output_file_path("downloads", "a.b.vsix", '/'), "downloads/a.b.vsix");
}

#[test]
fn range_header_counts_existing_bytes() {
    assert_eq!(range_header_value(0), "bytes=0-");
    assert_eq!(range_header_value(10240), "bytes=10240-");
}

#[test]
fn end_to_end_pinned_specifier_names_url_and_file() {
    let e = parse_ext_line("ms-python.python@2024.1.0=linux-x64").expect("parse");
    let (version, platform) = e.pinned_target().expect("version is pinned");
    let url = extension_download_url(&e.publisher, &e.package, &version, platform.as_deref());
    assert_eq!(
        url,
        "https://marketplace.visualstudio.com/_apis/public/gallery/publishers/ms-python/vsextensions/python/2024.1.0/vspackage?targetPlatform=linux-x64"
    );
    assert_eq!(e.vsix_file_name(), "ms-python.python@2024.1.0=linux-x64.vsix");
}

#[test]
fn download_url_without_platform_has_no_query() {
    let url = extension_download_url("a", "b", "1.0", None);
    assert_eq!(
        url,
        "https://marketplace.visualstudio.com/_apis/public/gallery/publishers/a/vsextensions/b/1.0/vspackage"
    );
}
