//! The server release path: normalizing host platform and architecture names
//! to the marketplace vocabulary, building the release query and download
//! addresses, naming the downloaded archive, and dispatching its extraction.

use vstd::prelude::*;

use crate::strutil::{
    ends_with_str, rfind_char, spec_ends_with, spec_rfind, str_eq,
};

verus! {

/// The marketplace name for a host operating system identifier: the four
/// known hosts are mapped, anything else passes through unchanged.
pub open spec fn spec_platform_of_host(host_os: Seq<char>) -> Seq<char> {
    if host_os == "linux"@ {
        "linux"@
    } else if host_os == "windows"@ {
        "win32"@
    } else if host_os == "macos"@ {
        "darwin"@
    } else if host_os == "alpine"@ {
        "alpine"@
    } else {
        host_os
    }
}

/// The marketplace name for a host architecture identifier: the three known
/// architectures are mapped, anything else passes through unchanged.
pub open spec fn spec_arch_of_host(host_arch: Seq<char>) -> Seq<char> {
    if host_arch == "x86_64"@ {
        "x64"@
    } else if host_arch == "aarch64"@ {
        "arm64"@
    } else if host_arch == "arm"@ {
        "armhf"@
    } else {
        host_arch
    }
}

/// Resolves the platform and architecture of a server download: an explicit
/// override is used verbatim, otherwise the host's own identifiers are
/// mapped to the marketplace vocabulary.
pub fn get_platform_info(
    platform: &Option<String>,
    arch: &Option<String>,
    host_os: &str,
    host_arch: &str,
) -> (r: (String, String))
    ensures
        r.0@ == (match platform {
            Some(p) => p@,
            None => spec_platform_of_host(host_os@),
        }),
        r.1@ == (match arch {
            Some(a) => a@,
            None => spec_arch_of_host(host_arch@),
        }),
{
    let p = match platform {
        Some(p) => p.clone(),
        None => {
            if str_eq(host_os, "linux") {
                String::from_str("linux")
            } else if str_eq(host_os, "windows") {
                String::from_str("win32")
            } else if str_eq(host_os, "macos") {
                String::from_str("darwin")
            } else if str_eq(host_os, "alpine") {
                String::from_str("alpine")
            } else {
                String::from_str(host_os)
            }
        },
    };
    let a = match arch {
        Some(a) => a.clone(),
        None => {
            if str_eq(host_arch, "x86_64") {
                String::from_str("x64")
            } else if str_eq(host_arch, "aarch64") {
                String::from_str("arm64")
            } else if str_eq(host_arch, "arm") {
                String::from_str("armhf")
            } else {
                String::from_str(host_arch)
            }
        },
    };
    (p, a)
}

/// The artifact family of a server platform: the `alpine` platform ships the
/// standalone build, every other platform the server build.
pub open spec fn spec_server_prefix(platform: Seq<char>) -> Seq<char> {
    if platform == "alpine"@ {
        "cli-"@ + platform
    } else {
        "server-"@ + platform
    }
}

/// Builds the artifact prefix, proved against `spec_server_prefix`.
pub fn server_prefix(platform: &str) -> (r: String)
    ensures
        r@ == spec_server_prefix(platform@),
{
    let mut r = if str_eq(platform, "alpine") {
        String::from_str("cli-")
    } else {
        String::from_str("server-")
    };
    r.append(platform);
    r
}

/// The address of the latest-commit feed for one platform and architecture.
pub fn latest_release_url(platform: &str, arch: &str) -> (r: String)
    ensures
        r@ == "https://update.code.visualstudio.com/api/commits/stable/"@ + platform@ + "-"@
            + arch@,
{
    let mut r = String::from_str("https://update.code.visualstudio.com/api/commits/stable/");
    r.append(platform);
    r.append("-");
    r.append(arch);
    r
}

/// What the latest-commit feed's response text yields: the first element of
/// the JSON array, when the text is such an array, it is not empty, and its
/// first element is a string. The result depends on the text alone.
pub uninterp spec fn latest_commit_of(text: Seq<char>) -> Option<Seq<char>>;

/// Relies on serde_json::from_str and Value::as_array/as_str, and on
/// slice::first: the first string element of the parsed JSON array.
#[verifier::external_body]
fn read_latest_commit(text: &str) -> (r: Option<String>)
    ensures
        match r {
            Some(c) => latest_commit_of(text@) == Some(c@),
            None => latest_commit_of(text@) is None,
        },
{
    let data: serde_json::Value = serde_json::from_str(text).ok()?;
    let commit = data.as_array()?.first()?.as_str()?;
    Some(commit.to_owned())
}

/// Reads the latest commit id out of the feed's response text, proved
/// against the named reading of the text: the first element of the JSON
/// array. A response of another shape is the lookup error, which names the
/// queried address.
pub fn parse_latest_commit(text: &str, url: &str) -> (r: Result<String, String>)
    ensures
        match latest_commit_of(text@) {
            Some(c) => r matches Ok(o) && o@ == c,
            None => r matches Err(m) && m@ == "query vscode server commit id failed, url "@
                + url@,
        },
{
    match read_latest_commit(text) {
        Some(c) => Ok(c),
        None => {
            let mut m = String::from_str("query vscode server commit id failed, url ");
            m.append(url);
            Err(m)
        },
    }
}

/// The download address of one server release artifact.
pub fn server_download_url(commit: &str, prefix: &str, arch: &str) -> (r: String)
    ensures
        r@ == "https://update.code.visualstudio.com/commit:"@ + commit@ + "/"@ + prefix@ + "-"@
            + arch@ + "/stable"@,
{
    let mut r = String::from_str("https://update.code.visualstudio.com/commit:");
    r.append(commit);
    r.append("/");
    r.append(prefix);
    r.append("-");
    r.append(arch);
    r.append("/stable");
    r
}

/// The base name, without extension, of the downloaded release archive.
pub fn release_archive_base(prefix: &str, arch: &str, commit: &str) -> (r: String)
    ensures
        r@ == "vscode-"@ + prefix@ + "-"@ + arch@ + "-"@ + commit@,
{
    let mut r = String::from_str("vscode-");
    r.append(prefix);
    r.append("-");
    r.append(arch);
    r.append("-");
    r.append(commit);
    r
}

/// The archive extension derived from a suggested filename: everything from
/// the last `.`, widened to `.tar.<ext>` when the stem ends in `.tar`; a
/// missing name, or one without a `.`, falls back to `.tar.gz`.
pub open spec fn spec_archive_ext(name: Option<Seq<char>>) -> Seq<char> {
    match name {
        Some(x) => match spec_rfind(x, '.') {
            Some(p) => if spec_ends_with(x.take(p), ".tar"@) {
                ".tar"@ + x.skip(p)
            } else {
                x.skip(p)
            },
            None => ".tar.gz"@,
        },
        None => ".tar.gz"@,
    }
}

/// Derives the archive extension, proved against `spec_archive_ext`.
pub fn archive_extension(name: Option<&str>) -> (r: String)
    ensures
        r@ == spec_archive_ext(name.deep_view()),
{
    match name {
        Some(x) => match rfind_char(x, '.') {
            Some(p) => {
                proof {
                    crate::strutil::lemma_spec_rfind(x@, '.');
                }
                let n = x.unicode_len();
                let stem = x.substring_char(0, p);
                let ext = x.substring_char(p, n);
                if ends_with_str(stem, ".tar") {
                    let mut r = String::from_str(".tar");
                    r.append(ext);
                    r
                } else {
                    String::from_str(ext)
                }
            },
            None => String::from_str(".tar.gz"),
        },
        None => String::from_str(".tar.gz"),
    }
}

/// The two archive shapes a release download can arrive in.
#[derive(Debug)]
pub enum ArchiveKind {
    TarGz,
    Zip,
}

/// Dispatches extraction by the archive file's extension: `.tar.gz` streams
/// through the gzip tar path, `.zip` through the zip path, and anything else
/// is refused before any extraction is tried.
pub fn archive_kind(archive_file: &str) -> (r: Result<ArchiveKind, String>)
    ensures
        spec_ends_with(archive_file@, ".tar.gz"@) ==> (r matches Ok(k) && k is TarGz),
        !spec_ends_with(archive_file@, ".tar.gz"@) && spec_ends_with(archive_file@, ".zip"@) ==> (
        r matches Ok(k) && k is Zip),
        !spec_ends_with(archive_file@, ".tar.gz"@) && !spec_ends_with(archive_file@, ".zip"@) ==> (
        r matches Err(m) && m@ == "unable to extract file "@ + archive_file@),
{
    if ends_with_str(archive_file, ".tar.gz") {
        Ok(ArchiveKind::TarGz)
    } else if ends_with_str(archive_file, ".zip") {
        Ok(ArchiveKind::Zip)
    } else {
        let mut m = String::from_str("unable to extract file ");
        m.append(archive_file);
        Err(m)
    }
}

/// The target directory of one extracted release: `<output_dir>/bin/<commit>`,
/// joined with the platform's path separator.
pub fn release_commit_dir(output_dir: &str, commit: &str, separator: char) -> (r: String)
    ensures
        r@ == output_dir@ + seq![separator] + "bin"@ + seq![separator] + commit@,
{
    let mut r = String::from_str(output_dir);
    r.push(separator);
    r.append("bin");
    r.push(separator);
    r.append(commit);
    proof {
        assert(output_dir@.push(separator) =~= output_dir@ + seq![separator]);
        assert((output_dir@ + seq![separator] + "bin"@).push(separator) =~= output_dir@ + seq![
            separator,
        ] + "bin"@ + seq![separator]);
    }
    r
}

/// The fixed decisions of one server download run: the resolved platform and
/// architecture, the artifact prefix they give, the effective output
/// directory, and the latest-commit feed address for the pair.
pub struct ServerPlan {
    pub platform: String,
    pub arch: String,
    pub prefix: String,
    pub output_dir: String,
    pub commits_url: String,
}

/// Lays out one server download from its arguments and the host identifiers:
/// overrides win over host mapping, the prefix follows the platform, and a
/// missing output directory means the current one.
pub fn server_plan(
    platform: &Option<String>,
    arch: &Option<String>,
    output_dir: &Option<String>,
    host_os: &str,
    host_arch: &str,
) -> (r: ServerPlan)
    ensures
        r.platform@ == (match platform {
            Some(p) => p@,
            None => spec_platform_of_host(host_os@),
        }),
        r.arch@ == (match arch {
            Some(a) => a@,
            None => spec_arch_of_host(host_arch@),
        }),
        r.prefix@ == spec_server_prefix(r.platform@),
        r.output_dir@ == (match output_dir {
            Some(d) => d@,
            None => "."@,
        }),
        r.commits_url@ == "https://update.code.visualstudio.com/api/commits/stable/"@
            + r.platform@ + "-"@ + r.arch@,
{
    let (p, a) = get_platform_info(platform, arch, host_os, host_arch);
    let prefix = server_prefix(p.as_str());
    let out = match output_dir {
        Some(d) => d.clone(),
        None => String::from_str("."),
    };
    let commits_url = latest_release_url(p.as_str(), a.as_str());
    ServerPlan { platform: p, arch: a, prefix, output_dir: out, commits_url }
}

} // verus!
