//! The download orchestrator's pure core: deciding whether a fetch happens
//! at all, naming the temporary transfer files, and decoding a fetched body
//! according to the saved response headers.

use std::io::Read;
use vstd::prelude::*;

use crate::headers::spec_content_encoding;
use crate::strutil::spec_find_sub;

verus! {

/// What `flate2` decompresses a gzip stream to; the result depends on the
/// input bytes alone, and an invalid stream has none.
pub uninterp spec fn gunzip_of(data: Seq<u8>) -> Option<Seq<u8>>;

/// Relies on flate2::read::GzDecoder: decompresses the first gzip member of
/// the bytes in memory, ignoring anything after it; a stream whose first
/// member is invalid or truncated fails.
#[verifier::external_body]
fn gunzip(data: &Vec<u8>) -> (r: Option<Vec<u8>>)
    ensures
        match r {
            Some(d) => gunzip_of(data@) == Some(d@),
            None => gunzip_of(data@) is None,
        },
{
    let mut decoder = flate2::read::GzDecoder::new(&data[..]);
    let mut decoded: Vec<u8> = Vec::new();
    match decoder.read_to_end(&mut decoded) {
        Ok(_) => Some(decoded),
        Err(_) => None,
    }
}

/// Does this announced content encoding call for a gzip decode?
pub open spec fn spec_encoding_is_gzip(enc: Option<Seq<char>>) -> bool {
    match enc {
        Some(e) => spec_find_sub(e, seq!['g', 'z', 'i', 'p']) is Some,
        None => false,
    }
}

/// Decodes a fetched body according to the saved raw response headers: a
/// `content-encoding` that mentions gzip has the body decompressed, anything
/// else leaves the bytes as they came; a gzip body that does not decompress
/// is the error.
pub fn decode_body(header_text: &str, body: Vec<u8>) -> (r: Result<Vec<u8>, String>)
    ensures
        spec_encoding_is_gzip(spec_content_encoding(header_text@)) ==> (match gunzip_of(body@) {
            Some(d) => r matches Ok(v) && v@ == d,
            None => r matches Err(m) && m@ == "decode gzip content failed"@,
        }),
        !spec_encoding_is_gzip(spec_content_encoding(header_text@)) ==> (r matches Ok(v) && v@
            == body@),
{
    proof {
        reveal_strlit("gzip");
        assert("gzip"@ =~= seq!['g', 'z', 'i', 'p']);
    }
    let is_gzip = match crate::headers::parse_http_header_content_encoding(header_text) {
        Some(enc) => crate::strutil::contains_sub(enc.as_str(), "gzip"),
        None => false,
    };
    if is_gzip {
        match gunzip(&body) {
            Some(decoded) => Ok(decoded),
            None => Err(String::from_str("decode gzip content failed")),
        }
    } else {
        Ok(body)
    }
}

/// What a fetch does: nothing because the artifact is already present, or a
/// transfer, possibly resuming a partial body file.
pub enum FetchDecision {
    Skip,
    Download { resume: bool },
}

/// Whether the caller asked for cache use; unspecified means yes.
pub open spec fn spec_effective_cached(cached: Option<bool>) -> bool {
    match cached {
        Some(v) => v,
        None => true,
    }
}

/// Decides one fetch: with cache use on and the destination already present
/// the fetch is skipped entirely; otherwise a transfer runs, resuming any
/// partial body file exactly when cache use is on.
pub fn fetch_decision(cached: Option<bool>, dest_exists: bool) -> (r: FetchDecision)
    ensures
        r is Skip <==> (spec_effective_cached(cached) && dest_exists),
        r matches FetchDecision::Download { resume } ==> resume == spec_effective_cached(cached),
{
    let c = match cached {
        Some(v) => v,
        None => true,
    };
    if c && dest_exists {
        FetchDecision::Skip
    } else {
        FetchDecision::Download { resume: c }
    }
}

/// The temporary body file of one transfer, beside its destination.
pub fn body_file_name(output_file: &str) -> (r: String)
    ensures
        r@ == output_file@ + ".downloading"@,
{
    let mut r = String::from_str(output_file);
    r.append(".downloading");
    r
}

/// The temporary header file of one transfer, beside its destination.
pub fn head_file_name(output_file: &str) -> (r: String)
    ensures
        r@ == output_file@ + ".header"@,
{
    let mut r = String::from_str(output_file);
    r.append(".header");
    r
}

/// The destination path of an artifact inside a directory, joined with the
/// platform's path separator.
pub fn output_file_path(dir: &str, file_name: &str, separator: char) -> (r: String)
    ensures
        r@ == dir@ + seq![separator] + file_name@,
{
    let mut r = String::from_str(dir);
    r.push(separator);
    r.append(file_name);
    proof {
        assert(dir@.push(separator) =~= dir@ + seq![separator]);
    }
    r
}

/// The `Range` header value that resumes a transfer after `have` bytes.
pub fn range_header_value(have: u64) -> (r: String)
    ensures
        r@ == "bytes="@ + crate::strutil::spec_dec(have as nat) + "-"@,
{
    let mut r = String::from_str("bytes=");
    r.append(crate::strutil::dec_string(have).as_str());
    r.append("-");
    r
}

} // verus!
