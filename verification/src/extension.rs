//! The canonical extension specifier: parsing from the three accepted input
//! shapes, canonical display names, platform validation, and marketplace
//! version selection.

use vstd::prelude::*;

use crate::strutil::{
    ends_with_str, find_char, rfind_char, spec_ends_with, spec_find, spec_rfind, spec_str_le,
    spec_trim, str_eq, str_le, trim_str,
};

verus! {

/// A request for one extension, possibly missing version and platform.
#[derive(Debug)]
pub struct Extension {
    pub publisher: String,
    pub package: String,
    pub version: Option<String>,
    pub platform: Option<String>,
}

/// The mathematical model of a specifier.
pub ghost struct ExtensionView {
    pub publisher: Seq<char>,
    pub package: Seq<char>,
    pub version: Option<Seq<char>>,
    pub platform: Option<Seq<char>>,
}

impl View for Extension {
    type V = ExtensionView;

    open spec fn view(&self) -> ExtensionView {
        ExtensionView {
            publisher: self.publisher@,
            package: self.package@,
            version: self.version.deep_view(),
            platform: self.platform.deep_view(),
        }
    }
}

/// The canonical display name `publisher.package[@version][=platform]`.
pub open spec fn spec_canonical(v: ExtensionView) -> Seq<char> {
    let base = v.publisher + seq!['.'] + v.package;
    let with_version = match v.version {
        Some(ver) => base + seq!['@'] + ver,
        None => base,
    };
    match v.platform {
        Some(plat) => with_version + seq!['='] + plat,
        None => with_version,
    }
}

/// Builds the canonical display name from its parts.
pub fn get_extension_name(
    publisher: &str,
    package: &str,
    version: Option<&str>,
    platform: Option<&str>,
) -> (r: String)
    ensures
        r@ == spec_canonical(
            ExtensionView {
                publisher: publisher@,
                package: package@,
                version: version.deep_view(),
                platform: platform.deep_view(),
            },
        ),
{
    proof {
        reveal_strlit(".");
        reveal_strlit("@");
        reveal_strlit("=");
        assert("."@ =~= seq!['.']);
        assert("@"@ =~= seq!['@']);
        assert("="@ =~= seq!['=']);
    }
    let mut r = String::from_str(publisher);
    r.append(".");
    r.append(package);
    match version {
        Some(ver) => {
            r.append("@");
            r.append(ver);
        },
        None => {},
    }
    match platform {
        Some(plat) => {
            r.append("=");
            r.append(plat);
        },
        None => {},
    }
    r
}

impl Extension {
    /// The canonical display name of this specifier.
    pub fn get_extension_name(&self) -> (r: String)
        ensures
            r@ == spec_canonical(self@),
    {
        get_extension_name(
            self.publisher.as_str(),
            self.package.as_str(),
            match &self.version {
                Some(v) => Some(v.as_str()),
                None => None,
            },
            match &self.platform {
                Some(p) => Some(p.as_str()),
                None => None,
            },
        )
    }

    /// An identical copy of this specifier.
    pub fn duplicate(&self) -> (r: Extension)
        ensures
            r@ == self@,
    {
        Extension {
            publisher: self.publisher.clone(),
            package: self.package.clone(),
            version: match &self.version {
                Some(v) => Some(v.clone()),
                None => None,
            },
            platform: match &self.platform {
                Some(p) => Some(p.clone()),
                None => None,
            },
        }
    }
}

/// The trimmed token with a trailing `.vsix` removed, if present.
pub open spec fn spec_strip_vsix(t: Seq<char>) -> Seq<char> {
    if spec_ends_with(t, seq!['.', 'v', 's', 'i', 'x']) {
        t.take(t.len() - 5)
    } else {
        t
    }
}

/// Parsing one inline specifier token: trim, strip a `.vsix` suffix, split the
/// platform off the rightmost `=`, the version off the rightmost `@` of what
/// is left, and the publisher off the first `.` of the rest. A token whose
/// remainder has no `.`, or an empty publisher or package, yields nothing.
pub open spec fn spec_parse_inline(line: Seq<char>) -> Option<ExtensionView> {
    let t = spec_strip_vsix(spec_trim(line));
    let (rest1, platform) = match spec_rfind(t, '=') {
        Some(i) => (t.take(i), Some(t.skip(i + 1))),
        None => (t, None),
    };
    let (rest2, version) = match spec_rfind(rest1, '@') {
        Some(i) => (rest1.take(i), Some(rest1.skip(i + 1))),
        None => (rest1, None),
    };
    match spec_find(rest2, '.') {
        Some(i) => {
            if i == 0 || i + 1 == rest2.len() {
                None
            } else {
                Some(
                    ExtensionView {
                        publisher: rest2.take(i),
                        package: rest2.skip(i + 1),
                        version,
                        platform,
                    },
                )
            }
        },
        None => None,
    }
}

/// Parses one inline specifier token, proved against `spec_parse_inline`.
pub fn parse_ext_line(line: &str) -> (r: Option<Extension>)
    ensures
        match r {
            Some(e) => spec_parse_inline(line@) == Some(e@),
            None => spec_parse_inline(line@) is None,
        },
{
    proof {
        reveal_strlit(".vsix");
        assert(".vsix"@ =~= seq!['.', 'v', 's', 'i', 'x']);
    }
    let trimmed = trim_str(line);
    let tn = trimmed.unicode_len();
    let stripped = if ends_with_str(trimmed, ".vsix") {
        trimmed.substring_char(0, tn - 5)
    } else {
        trimmed
    };
    proof {
        assert(stripped@ =~= spec_strip_vsix(spec_trim(line@)));
    }
    let sn = stripped.unicode_len();
    let (rest1, platform): (&str, Option<&str>) = match rfind_char(stripped, '=') {
        Some(i) => {
            proof {
                crate::strutil::lemma_spec_rfind(stripped@, '=');
            }
            (stripped.substring_char(0, i), Some(stripped.substring_char(i + 1, sn)))
        },
        None => (stripped, None),
    };
    let rn = rest1.unicode_len();
    let (rest2, version): (&str, Option<&str>) = match rfind_char(rest1, '@') {
        Some(i) => {
            proof {
                crate::strutil::lemma_spec_rfind(rest1@, '@');
            }
            (rest1.substring_char(0, i), Some(rest1.substring_char(i + 1, rn)))
        },
        None => (rest1, None),
    };
    let cn = rest2.unicode_len();
    match find_char(rest2, '.') {
        Some(i) => {
            proof {
                crate::strutil::lemma_spec_find(rest2@, '.');
            }
            if i == 0 || i + 1 == cn {
                None
            } else {
                let publisher = rest2.substring_char(0, i);
                let package = rest2.substring_char(i + 1, cn);
                Some(
                    Extension {
                        publisher: String::from_str(publisher),
                        package: String::from_str(package),
                        version: match version {
                            Some(v) => Some(String::from_str(v)),
                            None => None,
                        },
                        platform: match platform {
                            Some(p) => Some(String::from_str(p)),
                            None => None,
                        },
                    },
                )
            }
        },
        None => None,
    }
}

/// The round trip law: any token that is already trimmed and does not end in
/// `.vsix`, and that parses to a specifier, is rebuilt exactly by the
/// canonical display name.
pub proof fn lemma_parse_canonical_round_trip(line: Seq<char>, v: ExtensionView)
    requires
        spec_trim(line) == line,
        !spec_ends_with(line, seq!['.', 'v', 's', 'i', 'x']),
        spec_parse_inline(line) == Some(v),
    ensures
        spec_canonical(v) == line,
{
    let t = line;
    assert(spec_strip_vsix(spec_trim(line)) == t);
    let (rest1, platform): (Seq<char>, Option<Seq<char>>) = match spec_rfind(t, '=') {
        Some(i) => (t.take(i), Some(t.skip(i + 1))),
        None => (t, None),
    };
    if spec_rfind(t, '=') is Some {
        let i = spec_rfind(t, '=')->Some_0;
        crate::strutil::lemma_spec_rfind(t, '=');
        assert(rest1 + seq!['='] + t.skip(i + 1) =~= t);
    }
    let (rest2, version): (Seq<char>, Option<Seq<char>>) = match spec_rfind(rest1, '@') {
        Some(i) => (rest1.take(i), Some(rest1.skip(i + 1))),
        None => (rest1, None),
    };
    if spec_rfind(rest1, '@') is Some {
        let i = spec_rfind(rest1, '@')->Some_0;
        crate::strutil::lemma_spec_rfind(rest1, '@');
        assert(rest2 + seq!['@'] + rest1.skip(i + 1) =~= rest1);
    }
    let i = spec_find(rest2, '.')->Some_0;
    crate::strutil::lemma_spec_find(rest2, '.');
    assert(rest2.take(i) + seq!['.'] + rest2.skip(i + 1) =~= rest2);
}

/// The marketplace platform vocabulary accepted for a pinned platform.
pub open spec fn spec_valid_platform(p: Seq<char>) -> bool {
    p == "win32-x64"@ || p == "win32-ia32"@ || p == "win32-arm64"@ || p == "linux-x64"@ || p
        == "linux-arm64"@ || p == "linux-armhf"@ || p == "darwin-x64"@ || p == "darwin-arm64"@ || p
        == "alpine-x64"@ || p == "web"@ || p == "alpine-arm64"@
}

impl Extension {
    /// Checks a pinned platform against the accepted vocabulary; a specifier
    /// without a platform always passes.
    pub fn check_platform(&self) -> (r: Result<(), String>)
        ensures
            r is Ok <==> (self@.platform is None || spec_valid_platform(self@.platform->Some_0)),
            r matches Err(m) ==> m@ == "invalid platform "@ + self@.platform->Some_0
                + ", choices in ("@
                + "win32-x64, win32-ia32, win32-arm64, linux-x64, linux-arm64, linux-armhf, darwin-x64, darwin-arm64, alpine-x64, web, alpine-arm64"@
                + ")"@,
    {
        match &self.platform {
            None => Ok(()),
            Some(platform) => {
                let p = platform.as_str();
                let passed = str_eq(p, "win32-x64") || str_eq(p, "win32-ia32") || str_eq(
                    p,
                    "win32-arm64",
                ) || str_eq(p, "linux-x64") || str_eq(p, "linux-arm64") || str_eq(p, "linux-armhf")
                    || str_eq(p, "darwin-x64") || str_eq(p, "darwin-arm64") || str_eq(
                    p,
                    "alpine-x64",
                ) || str_eq(p, "web") || str_eq(p, "alpine-arm64");
                if passed {
                    Ok(())
                } else {
                    let mut m = String::from_str("invalid platform ");
                    m.append(p);
                    m.append(", choices in (");
                    m.append(
                        "win32-x64, win32-ia32, win32-arm64, linux-x64, linux-arm64, linux-armhf, darwin-x64, darwin-arm64, alpine-x64, web, alpine-arm64",
                    );
                    m.append(")");
                    Err(m)
                }
            },
        }
    }
}

/// A `targetPlatform` value of `undefined` or `none` stands for "no platform".
pub open spec fn spec_normalize_platform(p: Option<Seq<char>>) -> Option<Seq<char>> {
    match p {
        Some(s) => if s == "undefined"@ || s == "none"@ {
            None
        } else {
            Some(s)
        },
        None => None,
    }
}

/// Normalizes a raw `targetPlatform` descriptor field.
pub fn normalize_target_platform(p: Option<String>) -> (r: Option<String>)
    ensures
        r.deep_view() == spec_normalize_platform(p.deep_view()),
{
    match p {
        Some(s) => {
            if str_eq(s.as_str(), "undefined") || str_eq(s.as_str(), "none") {
                None
            } else {
                Some(s)
            }
        },
        None => None,
    }
}

/// Builds a specifier from a JSON descriptor: the `identifier.id` field gives
/// publisher and package, and the descriptor's own `version` and normalized
/// `metadata.targetPlatform` replace whatever the id carried.
pub fn descriptor_to_extension(id: &str, version: Option<String>, target_platform: Option<
    String,
>) -> (r: Option<Extension>)
    ensures
        match spec_parse_inline(id@) {
            Some(b) => r matches Some(e) && e@ == (ExtensionView {
                publisher: b.publisher,
                package: b.package,
                version: version.deep_view(),
                platform: spec_normalize_platform(target_platform.deep_view()),
            }),
            None => r is None,
        },
{
    let base = parse_ext_line(id);
    match base {
        Some(b) => Some(
            Extension {
                publisher: b.publisher,
                package: b.package,
                version,
                platform: normalize_target_platform(target_platform),
            },
        ),
        None => None,
    }
}

/// One entry of a marketplace extension record's `versions` array, reduced to
/// the two fields the resolver reads.
#[derive(Debug)]
pub struct VersionEntry {
    pub version: Option<String>,
    pub target_platform: Option<String>,
}

/// The mathematical model of a version entry.
pub ghost struct VersionEntryView {
    pub version: Option<Seq<char>>,
    pub target_platform: Option<Seq<char>>,
}

impl View for VersionEntry {
    type V = VersionEntryView;

    open spec fn view(&self) -> VersionEntryView {
        VersionEntryView {
            version: self.version.deep_view(),
            target_platform: self.target_platform.deep_view(),
        }
    }
}

impl DeepView for VersionEntry {
    type V = VersionEntryView;

    open spec fn deep_view(&self) -> VersionEntryView {
        self.view()
    }
}

/// Does one version entry satisfy the request? An entry without a version
/// never matches. A pinned version must be equalled exactly. A pinned
/// platform must be equalled exactly by the entry's `targetPlatform`; an
/// unpinned request accepts the entry whatever its platform.
pub open spec fn spec_entry_matches(
    want_version: Option<Seq<char>>,
    want_platform: Option<Seq<char>>,
    e: VersionEntryView,
) -> bool {
    (match (want_version, e.version) {
        (_, None) => false,
        (Some(w), Some(v)) => w == v,
        (None, Some(_)) => true,
    }) && (match want_platform {
        Some(wp) => e.target_platform == Some(wp),
        None => true,
    })
}

/// The first entry, in marketplace order, that satisfies the request; its
/// version and its own platform qualifier are the resolution.
pub open spec fn spec_select(
    want_version: Option<Seq<char>>,
    want_platform: Option<Seq<char>>,
    entries: Seq<VersionEntryView>,
) -> Option<(Seq<char>, Option<Seq<char>>)>
    decreases entries.len(),
{
    if entries.len() == 0 {
        None
    } else if spec_entry_matches(want_version, want_platform, entries[0]) {
        Some((entries[0].version->Some_0, entries[0].target_platform))
    } else {
        spec_select(want_version, want_platform, entries.drop_first())
    }
}

pub proof fn lemma_spec_select(
    want_version: Option<Seq<char>>,
    want_platform: Option<Seq<char>>,
    entries: Seq<VersionEntryView>,
)
    ensures
        match spec_select(want_version, want_platform, entries) {
            Some(r) => exists|i: int|
                0 <= i < entries.len() && spec_entry_matches(want_version, want_platform, entries[i])
                    && r == (entries[i].version->Some_0, entries[i].target_platform) && (forall|
                    k: int,
                |
                    0 <= k < i ==> !spec_entry_matches(want_version, want_platform, entries[k])),
            None => forall|k: int|
                0 <= k < entries.len() ==> !spec_entry_matches(
                    want_version,
                    want_platform,
                    entries[k],
                ),
        },
    decreases entries.len(),
{
    if entries.len() > 0 && !spec_entry_matches(want_version, want_platform, entries[0]) {
        lemma_spec_select(want_version, want_platform, entries.drop_first());
        assert forall|k: int| 1 <= k < entries.len() implies entries[k] == entries.drop_first()[k
            - 1] by {
        }
        match spec_select(want_version, want_platform, entries.drop_first()) {
            Some(r) => {
                let j = choose|i: int|
                    0 <= i < entries.drop_first().len() && spec_entry_matches(
                        want_version,
                        want_platform,
                        entries.drop_first()[i],
                    ) && r == (
                        entries.drop_first()[i].version->Some_0,
                        entries.drop_first()[i].target_platform,
                    ) && (forall|k: int|
                        0 <= k < i ==> !spec_entry_matches(
                            want_version,
                            want_platform,
                            entries.drop_first()[k],
                        ));
                assert(0 <= j + 1 < entries.len() && spec_entry_matches(
                    want_version,
                    want_platform,
                    entries[j + 1],
                ) && r == (entries[j + 1].version->Some_0, entries[j + 1].target_platform) && (
                forall|k: int|
                    0 <= k < j + 1 ==> !spec_entry_matches(want_version, want_platform, entries[k])
                ));
            },
            None => {},
        }
    }
}

/// Scans the marketplace's version entries in their given order and returns
/// the first satisfying entry's version and platform.
pub fn select_version(
    want_version: &Option<String>,
    want_platform: &Option<String>,
    entries: &Vec<VersionEntry>,
) -> (r: Option<(String, Option<String>)>)
    ensures
        match r {
            Some(vp) => spec_select(
                want_version.deep_view(),
                want_platform.deep_view(),
                entries.deep_view(),
            ) == Some((vp.0@, vp.1.deep_view())),
            None => spec_select(
                want_version.deep_view(),
                want_platform.deep_view(),
                entries.deep_view(),
            ) is None,
        },
{
    let ghost wv = want_version.deep_view();
    let ghost wp = want_platform.deep_view();
    let ghost es = entries.deep_view();
    let n = entries.len();
    let mut i: usize = 0;
    while i < n
        invariant
            n == entries.len(),
            es == entries.deep_view(),
            wv == want_version.deep_view(),
            wp == want_platform.deep_view(),
            es.len() == n,
            0 <= i <= n,
            forall|k: int| 0 <= k < i ==> !spec_entry_matches(wv, wp, es[k]),
        decreases n - i,
    {
        let e = &entries[i];
        proof {
            assert(es[i as int] == e.deep_view());
        }
        let version_ok = match (want_version, &e.version) {
            (_, None) => false,
            (Some(w), Some(v)) => str_eq(w.as_str(), v.as_str()),
            (None, Some(_)) => true,
        };
        let platform_ok = match (want_platform, &e.target_platform) {
            (Some(w), Some(p)) => str_eq(w.as_str(), p.as_str()),
            (Some(_), None) => false,
            (None, _) => true,
        };
        if version_ok && platform_ok {
            assert(spec_entry_matches(wv, wp, es[i as int]));
            let version = match &e.version {
                Some(v) => v.clone(),
                None => String::new(),
            };
            let platform = match &e.target_platform {
                Some(p) => Some(p.clone()),
                None => None,
            };
            proof {
                lemma_spec_select(wv, wp, es);
            }
            return Some((version, platform));
        }
        assert(!spec_entry_matches(wv, wp, es[i as int]));
        i += 1;
    }
    proof {
        lemma_spec_select(wv, wp, es);
    }
    None
}

impl DeepView for Extension {
    type V = ExtensionView;

    open spec fn deep_view(&self) -> ExtensionView {
        self.view()
    }
}

impl Extension {
    /// Resolves this specifier against a marketplace record's version
    /// entries: the first entry satisfying the pinned constraints gives the
    /// version and platform; if none does, the error names the extension.
    pub fn query_version(&self, entries: &Vec<VersionEntry>) -> (r: Result<
        (String, Option<String>),
        String,
    >)
        ensures
            match spec_select(self@.version, self@.platform, entries.deep_view()) {
                Some(vp) => r matches Ok(o) && o.0@ == vp.0 && o.1.deep_view() == vp.1,
                None => r matches Err(m) && m@ == "query extension "@ + spec_canonical(
                    ExtensionView {
                        publisher: self@.publisher,
                        package: self@.package,
                        version: None,
                        platform: None,
                    },
                ) + " for version failed"@,
            },
    {
        match select_version(&self.version, &self.platform, entries) {
            Some(vp) => Ok(vp),
            None => {
                let base = get_extension_name(
                    self.publisher.as_str(),
                    self.package.as_str(),
                    None,
                    None,
                );
                let mut m = String::from_str("query extension ");
                m.append(base.as_str());
                m.append(" for version failed");
                Err(m)
            },
        }
    }
}

/// Are the canonical names of `s` in ascending lexicographic order?
pub open spec fn names_sorted(s: Seq<ExtensionView>) -> bool {
    forall|i: int, j: int|
        0 <= i < j < s.len() ==> spec_str_le(spec_canonical(s[i]), spec_canonical(s[j]))
}

/// Are the canonical names of `s` pairwise distinct?
pub open spec fn names_unique(s: Seq<ExtensionView>) -> bool {
    forall|i: int, j: int| 0 <= i < j < s.len() ==> spec_canonical(s[i]) != spec_canonical(s[j])
}

/// Does some element of `s` carry the canonical name `n`?
pub open spec fn name_present(s: Seq<ExtensionView>, n: Seq<char>) -> bool {
    exists|i: int| 0 <= i < s.len() && spec_canonical(s[i]) == n
}

/// Inserts `x` into a name-sorted, name-unique list, keeping it sorted and
/// unique; a specifier whose canonical name is already present is dropped.
#[verifier::rlimit(50)]
fn push_unique_sorted(list: &mut Vec<Extension>, x: Extension)
    requires
        names_sorted(old(list).deep_view()),
        names_unique(old(list).deep_view()),
    ensures
        names_sorted(final(list).deep_view()),
        names_unique(final(list).deep_view()),
        name_present(old(list).deep_view(), spec_canonical(x@)) ==> final(list).deep_view() == old(
            list,
        ).deep_view(),
        !name_present(old(list).deep_view(), spec_canonical(x@)) ==> exists|p: int|
            0 <= p <= old(list).deep_view().len() && final(list).deep_view() == old(
                list,
            ).deep_view().insert(p, x@),
        forall|n: Seq<char>|
            name_present(final(list).deep_view(), n) <==> (name_present(
                old(list).deep_view(),
                n,
            ) || n == spec_canonical(x@)),
        forall|k: int|
            0 <= k < final(list).deep_view().len() ==> (final(list).deep_view()[k] == x@ || old(
                list,
            ).deep_view().contains(final(list).deep_view()[k])),
{
    let ghost dv = list.deep_view();
    let name_x = x.get_extension_name();
    let n = list.len();
    proof {
        assert(dv.len() == n);
    }
    let mut i: usize = 0;
    while i < n
        invariant
            n == list.len(),
            dv == list.deep_view(),
            dv == old(list).deep_view(),
            names_sorted(dv),
            names_unique(dv),
            dv.len() == n,
            0 <= i <= n,
            name_x@ == spec_canonical(x@),
            forall|k: int| 0 <= k < i ==> spec_canonical(dv[k]) != spec_canonical(x@),
        decreases n - i,
    {
        let name_i = list[i].get_extension_name();
        if str_eq(name_i.as_str(), name_x.as_str()) {
            proof {
                assert(0 <= i < dv.len() && spec_canonical(dv[i as int]) == spec_canonical(x@));
                assert(name_present(dv, spec_canonical(x@)));
                assert forall|k: int| 0 <= k < dv.len() implies dv.contains(dv[k]) by {
                    assert(dv[k] == dv[k]);
                }
            }
            return ;
        }
        i += 1;
    }
    assert(!name_present(dv, spec_canonical(x@)));
    let mut p: usize = 0;
    while p < n
        invariant
            n == list.len(),
            dv == list.deep_view(),
            dv.len() == n,
            0 <= p <= n,
            name_x@ == spec_canonical(x@),
            forall|k: int| 0 <= k < p ==> spec_str_le(spec_canonical(dv[k]), spec_canonical(x@)),
        ensures
            n == list.len(),
            dv == list.deep_view(),
            dv.len() == n,
            0 <= p <= n,
            name_x@ == spec_canonical(x@),
            forall|k: int| 0 <= k < p ==> spec_str_le(spec_canonical(dv[k]), spec_canonical(x@)),
            p < n ==> !spec_str_le(spec_canonical(dv[p as int]), spec_canonical(x@)),
        decreases n - p,
    {
        let name_p = list[p].get_extension_name();
        if !str_le(name_p.as_str(), name_x.as_str()) {
            break ;
        }
        p += 1;
    }
    proof {
        if p < n {
            crate::strutil::lemma_str_le_total(spec_canonical(dv[p as int]), spec_canonical(x@));
        }
    }
    let ghost le_p = p as int;
    let ghost odv = list@;
    list.insert(p, x);
    proof {
        let fv = list.deep_view();
        odv.insert_ensures(le_p, x);
        dv.insert_ensures(le_p, x@);
        assert forall|k: int| 0 <= k < fv.len() implies fv[k] == dv.insert(le_p, x@)[k] by {
            assert(fv[k] == list@[k].deep_view());
            if k < le_p {
                assert(list@[k] == odv[k]);
            } else if k == le_p {
                assert(list@[k] == x);
            } else {
                assert(list@[k] == odv[k - 1]);
                assert(dv.insert(le_p, x@)[k - 1 + 1] == dv[k - 1]);
            }
        }
        assert(fv =~= dv.insert(le_p, x@));
        assert(0 <= le_p <= dv.len() && list.deep_view() == dv.insert(le_p, x@));
        assert(fv[le_p] == x@);
        assert(forall|k: int| 0 <= k < le_p ==> fv[k] == dv[k]);
        assert forall|k: int| le_p < k < fv.len() implies fv[k] == dv[k - 1] by {
            assert(dv.insert(le_p, x@)[k - 1 + 1] == dv[k - 1]);
        }
        assert forall|a: int, b: int| 0 <= a < b < fv.len() implies spec_str_le(
            spec_canonical(fv[a]),
            spec_canonical(fv[b]),
        ) by {
            if b < le_p {
                assert(fv[a] == dv[a] && fv[b] == dv[b]);
                assert(spec_str_le(spec_canonical(dv[a]), spec_canonical(dv[b])));
            } else if a < le_p && b == le_p {
                assert(fv[a] == dv[a] && fv[b] == x@);
                assert(spec_str_le(spec_canonical(dv[a]), spec_canonical(x@)));
            } else if a < le_p && b > le_p {
                assert(fv[a] == dv[a] && fv[b] == dv[b - 1]);
                assert(spec_str_le(spec_canonical(dv[a]), spec_canonical(dv[b - 1])));
            } else if a == le_p {
                assert(fv[a] == x@ && fv[b] == dv[b - 1]);
                crate::strutil::lemma_str_le_total(spec_canonical(dv[b - 1]), spec_canonical(x@));
                if spec_str_le(spec_canonical(dv[b - 1]), spec_canonical(x@)) {
                    if b - 1 > le_p {
                        assert(spec_str_le(
                            spec_canonical(dv[le_p]),
                            spec_canonical(dv[b - 1]),
                        ));
                        crate::strutil::lemma_str_le_trans(
                            spec_canonical(dv[le_p]),
                            spec_canonical(dv[b - 1]),
                            spec_canonical(x@),
                        );
                    }
                    assert(false);
                }
            } else {
                assert(fv[a] == dv[a - 1] && fv[b] == dv[b - 1]);
                assert(spec_str_le(spec_canonical(dv[a - 1]), spec_canonical(dv[b - 1])));
            }
        }
        assert forall|a: int, b: int| 0 <= a < b < fv.len() implies spec_canonical(fv[a])
            != spec_canonical(fv[b]) by {
            if b == le_p {
                assert(fv[a] == dv[a]);
            } else if a == le_p {
                assert(fv[b] == dv[b - 1]);
            } else if a < le_p && b > le_p {
                assert(fv[a] == dv[a] && fv[b] == dv[b - 1]);
            }
        }
        assert forall|nm: Seq<char>| name_present(fv, nm) implies (name_present(dv, nm) || nm
            == spec_canonical(x@)) by {
            let w = choose|w: int| 0 <= w < fv.len() && spec_canonical(fv[w]) == nm;
            if w < le_p {
                assert(fv[w] == dv[w]);
            } else if w > le_p {
                assert(fv[w] == dv[w - 1]);
            }
        }
        assert forall|nm: Seq<char>| name_present(dv, nm) implies name_present(fv, nm) by {
            let w = choose|w: int| 0 <= w < dv.len() && spec_canonical(dv[w]) == nm;
            if w < le_p {
                assert(fv[w] == dv[w]);
            } else {
                assert(fv[w + 1] == dv[w]);
            }
        }
        assert(name_present(fv, spec_canonical(x@))) by {
            assert(fv[le_p] == x@);
        }
        assert forall|k: int| 0 <= k < fv.len() implies (fv[k] == x@ || dv.contains(fv[k])) by {
            if k < le_p {
                assert(dv[k] == fv[k]);
                assert(dv.contains(fv[k]));
            } else if k > le_p {
                assert(dv[k - 1] == fv[k]);
                assert(dv.contains(fv[k]));
            }
        }
    }
}

/// Sorts parsed specifiers by canonical name and keeps one per name: the
/// result is name-sorted and name-unique, every element is one of the parsed
/// specifiers, and every parsed specifier's name is represented.
pub fn collect_extensions(parsed: &Vec<Extension>) -> (r: Vec<Extension>)
    ensures
        names_sorted(r.deep_view()),
        names_unique(r.deep_view()),
        forall|k: int|
            0 <= k < r.deep_view().len() ==> parsed.deep_view().contains(r.deep_view()[k]),
        forall|k: int|
            0 <= k < parsed.deep_view().len() ==> name_present(
                r.deep_view(),
                spec_canonical(parsed.deep_view()[k]),
            ),
{
    let ghost pv = parsed.deep_view();
    let n = parsed.len();
    let mut r: Vec<Extension> = Vec::new();
    proof {
        assert(pv.len() == n);
        assert(r.deep_view() =~= Seq::<ExtensionView>::empty());
    }
    let mut i: usize = 0;
    while i < n
        invariant
            n == parsed.len(),
            pv == parsed.deep_view(),
            pv.len() == n,
            0 <= i <= n,
            names_sorted(r.deep_view()),
            names_unique(r.deep_view()),
            forall|k: int| 0 <= k < r.deep_view().len() ==> pv.contains(r.deep_view()[k]),
            forall|k: int| 0 <= k < i ==> name_present(r.deep_view(), spec_canonical(pv[k])),
        decreases n - i,
    {
        let x = parsed[i].duplicate();
        proof {
            assert(x@ == pv[i as int]);
            assert(pv.contains(pv[i as int]));
        }
        let ghost before = r.deep_view();
        push_unique_sorted(&mut r, x);
        proof {
            assert forall|k: int| 0 <= k < r.deep_view().len() implies pv.contains(
                r.deep_view()[k],
            ) by {
                if r.deep_view()[k] == pv[i as int] {
                } else {
                    assert(before.contains(r.deep_view()[k]));
                    let w = choose|w: int|
                        0 <= w < before.len() && before[w] == r.deep_view()[k];
                }
            }
        }
        i += 1;
    }
    r
}
/// What a marketplace query response text yields: the version entries of
/// `results[0].extensions[0]`, each reduced to its `version` and
/// `targetPlatform` fields, in marketplace order. The outer layer is absent
/// when the text is not JSON; the inner layer is absent when the JSON lacks
/// that record. The result depends on the text alone.
pub uninterp spec fn response_entries_of(text: Seq<char>) -> Option<Option<Seq<VersionEntryView>>>;

/// Relies on serde_json::from_str and Value indexing (null for a missing
/// key), Value::get, Value::as_array and Value::as_str: parses the query
/// response, walks to `results[0].extensions[0]`, and maps each entry of its
/// `versions` array one for one to the two fields the resolver reads. Text
/// that is not JSON and JSON without such a record are told apart.
#[verifier::external_body]
fn read_response_entries(text: &str) -> (r: Option<Option<Vec<VersionEntry>>>)
    ensures
        match r {
            Some(Some(v)) => response_entries_of(text@) == Some(Some(v.deep_view())),
            Some(None) => response_entries_of(text@) == Some(None::<Seq<VersionEntryView>>),
            None => response_entries_of(text@) is None,
        },
{
    let data: serde_json::Value = serde_json::from_str(text).ok()?;
    let record = match data["results"][0]["extensions"].get(0) {
        Some(r) => r,
        None => return Some(None),
    };
    let arr = match record["versions"].as_array() {
        Some(a) => a,
        None => return Some(Some(vec![])),
    };
    Some(Some(arr.iter().map(|e| VersionEntry {
        version: e["version"].as_str().map(str::to_owned),
        target_platform: e["targetPlatform"].as_str().map(str::to_owned),
    }).collect()))
}

/// One JSON manifest descriptor, reduced to the three fields the parser
/// reads; a field the descriptor lacks, or whose value is not a string, is
/// absent.
#[derive(Debug)]
pub struct Descriptor {
    pub id: Option<String>,
    pub version: Option<String>,
    pub target_platform: Option<String>,
}

/// The mathematical model of a manifest descriptor.
pub ghost struct DescriptorView {
    pub id: Option<Seq<char>>,
    pub version: Option<Seq<char>>,
    pub target_platform: Option<Seq<char>>,
}

impl View for Descriptor {
    type V = DescriptorView;

    open spec fn view(&self) -> DescriptorView {
        DescriptorView {
            id: self.id.deep_view(),
            version: self.version.deep_view(),
            target_platform: self.target_platform.deep_view(),
        }
    }
}

impl DeepView for Descriptor {
    type V = DescriptorView;

    open spec fn deep_view(&self) -> DescriptorView {
        self.view()
    }
}

/// What JSON manifest text yields: the descriptors of the array, or the one
/// descriptor of a single object, each reduced to its `identifier.id`,
/// `version` and `metadata.targetPlatform` fields; nothing when the text is
/// not JSON; an empty sequence for JSON of another shape. The result depends
/// on the text alone.
pub uninterp spec fn manifest_descriptors_of(text: Seq<char>) -> Option<Seq<DescriptorView>>;

/// Relies on serde_json::from_str and Value indexing (null for a missing
/// key), Value::as_array, Value::is_object and Value::as_str: parses
/// manifest text and maps each descriptor one for one to its three fields.
#[verifier::external_body]
fn read_manifest_descriptors(text: &str) -> (r: Option<Vec<Descriptor>>)
    ensures
        match r {
            Some(v) => manifest_descriptors_of(text@) == Some(v.deep_view()),
            None => manifest_descriptors_of(text@) is None,
        },
{
    let data: serde_json::Value = serde_json::from_str(text).ok()?;
    let items: Vec<&serde_json::Value> = match data.as_array() {
        Some(arr) => arr.iter().collect(),
        None if data.is_object() => vec![&data],
        None => vec![],
    };
    Some(items.iter().map(|d| Descriptor {
        id: d["identifier"]["id"].as_str().map(str::to_owned),
        version: d["version"].as_str().map(str::to_owned),
        target_platform: d["metadata"]["targetPlatform"].as_str().map(str::to_owned),
    }).collect())
}

/// The specifier one manifest descriptor stands for: its id parsed as an
/// inline name, carrying the descriptor's own version and normalized
/// platform; nothing when the id is absent or does not parse.
pub open spec fn spec_descriptor_extension(d: DescriptorView) -> Option<ExtensionView> {
    match d.id {
        Some(id) => match spec_parse_inline(id) {
            Some(b) => Some(
                ExtensionView {
                    publisher: b.publisher,
                    package: b.package,
                    version: d.version,
                    platform: spec_normalize_platform(d.target_platform),
                },
            ),
            None => None,
        },
        None => None,
    }
}

/// The specifiers of a sequence of descriptors, in order, dropping those
/// that stand for nothing.
pub open spec fn spec_parse_descriptors(ds: Seq<DescriptorView>) -> Seq<ExtensionView>
    decreases ds.len(),
{
    if ds.len() == 0 {
        Seq::empty()
    } else {
        let rest = spec_parse_descriptors(ds.drop_first());
        match spec_descriptor_extension(ds[0]) {
            Some(e) => seq![e] + rest,
            None => rest,
        }
    }
}

/// The specifiers parsed from a sequence of plain lines, in order, dropping
/// lines that parse to nothing.
pub open spec fn spec_parse_lines(lines: Seq<Seq<char>>) -> Seq<ExtensionView>
    decreases lines.len(),
{
    if lines.len() == 0 {
        Seq::empty()
    } else {
        let rest = spec_parse_lines(lines.drop_first());
        match spec_parse_inline(lines[0]) {
            Some(e) => seq![e] + rest,
            None => rest,
        }
    }
}

/// Parses newline-delimited plain specifier lines, proved against
/// `spec_parse_lines` over the split lines.
pub fn parse_plain_lines(content: &str) -> (r: Vec<Extension>)
    ensures
        r.deep_view() == spec_parse_lines(crate::strutil::spec_split(content@, '\n')),
{
    let lines = crate::strutil::split_str(content, '\n');
    let ghost lv = lines.deep_view();
    let n = lines.len();
    let mut out: Vec<Extension> = Vec::new();
    proof {
        assert(lv.len() == n);
        assert(out.deep_view() =~= Seq::<ExtensionView>::empty());
        assert(lv.skip(0) =~= lv);
        assert(spec_parse_lines(lv.skip(n as int)) =~= Seq::<ExtensionView>::empty());
    }
    let mut i: usize = 0;
    while i < n
        invariant
            n == lines.len(),
            lv == lines.deep_view(),
            lv.len() == n,
            0 <= i <= n,
            spec_parse_lines(lv) == out.deep_view() + spec_parse_lines(lv.skip(i as int)),
        decreases n - i,
    {
        let ghost before = out.deep_view();
        proof {
            assert(lv.skip(i as int).len() > 0);
            assert(lv.skip(i as int)[0] == lv[i as int]);
            assert(lv.skip(i as int).drop_first() =~= lv.skip(i + 1));
            assert(lines[i as int]@ == lv[i as int]);
        }
        match parse_ext_line(lines[i].as_str()) {
            Some(e) => {
                out.push(e);
                proof {
                    assert(out.deep_view() =~= before + seq![e@]);
                    assert(spec_parse_lines(lv.skip(i as int)) =~= seq![e@] + spec_parse_lines(
                        lv.skip(i + 1),
                    ));
                    assert(before + seq![e@] + spec_parse_lines(lv.skip(i + 1)) =~= before
                        + spec_parse_lines(lv.skip(i as int)));
                }
            },
            None => {
                proof {
                    assert(spec_parse_lines(lv.skip(i as int)) == spec_parse_lines(lv.skip(i + 1)));
                }
            },
        }
        i += 1;
    }
    proof {
        assert(spec_parse_lines(lv.skip(n as int)) =~= Seq::<ExtensionView>::empty());
        assert(out.deep_view() + Seq::<ExtensionView>::empty() =~= out.deep_view());
    }
    out
}

/// Parses JSON manifest content, an array of descriptors or one descriptor
/// object, proved against `spec_parse_descriptors` over the named reading of
/// the text. Malformed JSON is told apart, so a caller can abort on it.
pub fn parse_json_content(content: &str) -> (r: Option<Vec<Extension>>)
    ensures
        match manifest_descriptors_of(content@) {
            Some(ds) => (r matches Some(v) && v.deep_view() == spec_parse_descriptors(ds)),
            None => r is None,
        },
{
    let mut out: Vec<Extension> = Vec::new();
    let ds = match read_manifest_descriptors(content) {
        Some(ds) => ds,
        None => {
            return None;
        },
    };
    let ghost dv = ds.deep_view();
    let n = ds.len();
    proof {
        assert(dv.len() == n);
        assert(out.deep_view() =~= Seq::<ExtensionView>::empty());
        assert(dv.skip(0) =~= dv);
        assert(spec_parse_descriptors(dv.skip(n as int)) =~= Seq::<ExtensionView>::empty());
    }
    let mut i: usize = 0;
    while i < n
        invariant
            n == ds.len(),
            dv == ds.deep_view(),
            dv.len() == n,
            0 <= i <= n,
            spec_parse_descriptors(dv) == out.deep_view() + spec_parse_descriptors(
                dv.skip(i as int),
            ),
        decreases n - i,
    {
        let ghost before = out.deep_view();
        proof {
            assert(dv.skip(i as int)[0] == dv[i as int]);
            assert(dv.skip(i as int).drop_first() =~= dv.skip(i + 1));
            assert(ds[i as int].deep_view() == dv[i as int]);
        }
        let d = &ds[i];
        match &d.id {
            Some(id) => {
                let version = match &d.version {
                    Some(v) => Some(v.clone()),
                    None => None,
                };
                let target_platform = match &d.target_platform {
                    Some(p) => Some(p.clone()),
                    None => None,
                };
                match descriptor_to_extension(id.as_str(), version, target_platform) {
                    Some(e) => {
                        let ghost ev = e@;
                        out.push(e);
                        proof {
                            assert(spec_descriptor_extension(dv[i as int]) == Some(ev));
                            assert(out.deep_view() =~= before + seq![ev]);
                            assert(before + seq![ev] + spec_parse_descriptors(dv.skip(i + 1))
                                =~= before + spec_parse_descriptors(dv.skip(i as int)));
                        }
                    },
                    None => {
                        proof {
                            assert(spec_descriptor_extension(dv[i as int]) is None);
                            assert(spec_parse_descriptors(dv.skip(i as int))
                                == spec_parse_descriptors(dv.skip(i + 1)));
                        }
                    },
                }
            },
            None => {
                proof {
                    assert(spec_descriptor_extension(dv[i as int]) is None);
                    assert(spec_parse_descriptors(dv.skip(i as int)) == spec_parse_descriptors(
                        dv.skip(i + 1),
                    ));
                }
            },
        }
        i += 1;
    }
    proof {
        assert(out.deep_view() + Seq::<ExtensionView>::empty() =~= out.deep_view());
    }
    Some(out)
}

/// One raw input, as the caller hands it over: an inline token, or the
/// content of a file the token named, kept beside that name so that a
/// parse failure can report it.
pub enum SpecSource {
    Inline(String),
    FileContent { path: String, content: String },
}

/// Does this source abort the gathering? Only a file whose content looks
/// like JSON but does not read as a manifest does.
pub open spec fn spec_source_fails(src: SpecSource) -> bool {
    match src {
        SpecSource::Inline(_) => false,
        SpecSource::FileContent { path: _, content } => spec_is_json_content(content@)
            && manifest_descriptors_of(content@) is None,
    }
}

/// The message a failing source aborts with, naming the file.
pub open spec fn spec_source_fail_message(src: SpecSource) -> Seq<char> {
    match src {
        SpecSource::Inline(_) => Seq::empty(),
        SpecSource::FileContent { path, content: _ } => "parse json failed from "@ + path@,
    }
}

/// What one non-failing input source parses to: the parse of an inline
/// token, the descriptors of a JSON manifest, or the parsed lines of a
/// plain report.
pub open spec fn spec_parses_of(src: SpecSource) -> Seq<ExtensionView> {
    match src {
        SpecSource::Inline(tok) => match spec_parse_inline(tok@) {
            Some(e) => seq![e],
            None => Seq::empty(),
        },
        SpecSource::FileContent { path: _, content } => if spec_is_json_content(content@) {
            match manifest_descriptors_of(content@) {
                Some(ds) => spec_parse_descriptors(ds),
                None => Seq::empty(),
            }
        } else {
            spec_parse_lines(crate::strutil::spec_split(content@, '\n'))
        },
    }
}

/// Everything the input sources parse to, in source order.
pub open spec fn spec_all_parses(srcs: Seq<SpecSource>) -> Seq<ExtensionView>
    decreases srcs.len(),
{
    if srcs.len() == 0 {
        Seq::empty()
    } else {
        spec_parses_of(srcs[0]) + spec_all_parses(srcs.drop_first())
    }
}

/// Does the file content look like JSON, that is, start with `[` or `{`?
pub open spec fn spec_is_json_content(c: Seq<char>) -> bool {
    c.len() > 0 && (c[0] == '[' || c[0] == '{')
}

/// Parses the content of a named file: JSON manifests by shape, anything
/// else as newline-delimited plain specifier lines. Only JSON-shaped content
/// that does not read as a manifest yields nothing.
pub fn parse_file_content(content: &str) -> (r: Option<Vec<Extension>>)
    ensures
        spec_is_json_content(content@) ==> (match manifest_descriptors_of(content@) {
            Some(ds) => (r matches Some(v) && v.deep_view() == spec_parse_descriptors(ds)),
            None => r is None,
        }),
        !spec_is_json_content(content@) ==> (r matches Some(v) && v.deep_view()
            == spec_parse_lines(crate::strutil::spec_split(content@, '\n'))),
{
    let n = content.unicode_len();
    let is_json = n > 0 && {
        let c0 = content.get_char(0);
        c0 == '[' || c0 == '{'
    };
    if is_json {
        parse_json_content(content)
    } else {
        Some(parse_plain_lines(content))
    }
}

/// Gathers specifiers from every input source, sorts them by canonical name
/// and keeps one per name: every specifier the sources parse to is
/// represented in the result by its canonical name, and every element of
/// the result is one of those parses. A file whose content looks like JSON
/// but does not read as a manifest aborts the run with an error naming it.
pub fn list_extensions(sources: &Vec<SpecSource>) -> (r: Result<Vec<Extension>, String>)
    ensures
        match r {
            Ok(list) => (forall|k: int|
                0 <= k < sources@.len() ==> !spec_source_fails(#[trigger] sources@[k]))
                && names_sorted(list.deep_view()) && names_unique(list.deep_view()) && (forall|
                j: int,
            |
                0 <= j < spec_all_parses(sources@).len() ==> name_present(
                    list.deep_view(),
                    spec_canonical(#[trigger] spec_all_parses(sources@)[j]),
                )) && (forall|k: int|
                0 <= k < list.deep_view().len() ==> spec_all_parses(sources@).contains(
                    #[trigger] list.deep_view()[k],
                )),
            Err(m) => exists|k: int|
                0 <= k < sources@.len() && spec_source_fails(#[trigger] sources@[k]) && m@
                    == spec_source_fail_message(sources@[k]) && (forall|j: int|
                    0 <= j < k ==> !spec_source_fails(sources@[j])),
        },
{
    let ghost sv = sources@;
    let n = sources.len();
    let mut parsed: Vec<Extension> = Vec::new();
    proof {
        assert(sv.len() == n);
        assert(parsed.deep_view() =~= Seq::<ExtensionView>::empty());
        assert(sv.skip(0) =~= sv);
        assert(spec_all_parses(sv.skip(n as int)) =~= Seq::<ExtensionView>::empty());
    }
    let mut i: usize = 0;
    while i < n
        invariant
            n == sources.len(),
            sv == sources@,
            sv.len() == n,
            0 <= i <= n,
            forall|k: int| 0 <= k < i ==> !spec_source_fails(#[trigger] sv[k]),
            spec_all_parses(sv) == parsed.deep_view() + spec_all_parses(sv.skip(i as int)),
        decreases n - i,
    {
        let ghost before = parsed.deep_view();
        proof {
            assert(sv.skip(i as int)[0] == sv[i as int]);
            assert(sv.skip(i as int).drop_first() =~= sv.skip(i + 1));
        }
        match &sources[i] {
            SpecSource::Inline(tok) => {
                match parse_ext_line(tok.as_str()) {
                    Some(e) => {
                        let ghost ev = e@;
                        parsed.push(e);
                        proof {
                            assert(spec_parses_of(sv[i as int]) =~= seq![ev]);
                            assert(parsed.deep_view() =~= before + spec_parses_of(sv[i as int]));
                        }
                    },
                    None => {
                        proof {
                            assert(spec_parses_of(sv[i as int]) =~= Seq::<ExtensionView>::empty());
                            assert(parsed.deep_view() =~= before + spec_parses_of(sv[i as int]));
                        }
                    },
                }
            },
            SpecSource::FileContent { path, content } => {
                match parse_file_content(content.as_str()) {
                    Some(more) => {
                        let mut more = more;
                        let ghost mv = more.deep_view();
                        parsed.append(&mut more);
                        proof {
                            assert(!spec_source_fails(sv[i as int]));
                            assert(mv == spec_parses_of(sv[i as int]));
                            assert(parsed.deep_view() =~= before + spec_parses_of(sv[i as int]));
                        }
                    },
                    None => {
                        let mut m = String::from_str("parse json failed from ");
                        m.append(path.as_str());
                        proof {
                            assert(spec_source_fails(sv[i as int]));
                            assert(m@ == spec_source_fail_message(sv[i as int]));
                        }
                        return Err(m);
                    },
                }
            },
        }
        proof {
            assert(spec_all_parses(sv.skip(i as int)) == spec_parses_of(sv[i as int])
                + spec_all_parses(sv.skip(i + 1)));
            assert(parsed.deep_view() + spec_all_parses(sv.skip(i + 1)) =~= before + (
            spec_parses_of(sv[i as int]) + spec_all_parses(sv.skip(i + 1))));
        }
        i += 1;
    }
    proof {
        assert(spec_all_parses(sv.skip(n as int)).len() == 0);
        assert(spec_all_parses(sv) =~= parsed.deep_view());
    }
    let list = collect_extensions(&parsed);
    proof {
        assert forall|j: int| 0 <= j < spec_all_parses(sv).len() implies name_present(
            list.deep_view(),
            spec_canonical(#[trigger] spec_all_parses(sv)[j]),
        ) by {
            assert(spec_all_parses(sv)[j] == parsed.deep_view()[j]);
            assert(name_present(list.deep_view(), spec_canonical(parsed.deep_view()[j])));
        }
        assert forall|k: int| 0 <= k < list.deep_view().len() implies spec_all_parses(
            sv,
        ).contains(#[trigger] list.deep_view()[k]) by {
            assert(parsed.deep_view().contains(list.deep_view()[k]));
        }
    }
    Ok(list)
}
impl Extension {
    /// The artifact file name of this specifier: its canonical name with the
    /// `.vsix` extension.
    pub fn vsix_file_name(&self) -> (r: String)
        ensures
            r@ == spec_canonical(self@) + ".vsix"@,
    {
        let mut r = self.get_extension_name();
        r.append(".vsix");
        r
    }

    /// The version and platform this specifier pins on its own: a specifier
    /// with a version needs no marketplace resolution and downloads that
    /// version for its own platform; one without must be resolved first.
    pub fn pinned_target(&self) -> (r: Option<(String, Option<String>)>)
        ensures
            match self@.version {
                Some(v) => r matches Some(t) && t.0@ == v && t.1.deep_view() == self@.platform,
                None => r is None,
            },
    {
        match &self.version {
            Some(v) => Some(
                (
                    v.clone(),
                    match &self.platform {
                        Some(p) => Some(p.clone()),
                        None => None,
                    },
                ),
            ),
            None => None,
        }
    }
}

/// The hexadecimal digit character for `d`.
pub open spec fn spec_hex_digit(d: int) -> char {
    if d == 0 {
        '0'
    } else if d == 1 {
        '1'
    } else if d == 2 {
        '2'
    } else if d == 3 {
        '3'
    } else if d == 4 {
        '4'
    } else if d == 5 {
        '5'
    } else if d == 6 {
        '6'
    } else if d == 7 {
        '7'
    } else if d == 8 {
        '8'
    } else if d == 9 {
        '9'
    } else if d == 10 {
        'a'
    } else if d == 11 {
        'b'
    } else if d == 12 {
        'c'
    } else if d == 13 {
        'd'
    } else if d == 14 {
        'e'
    } else {
        'f'
    }
}

/// How one character is written inside a JSON string literal: quote and
/// backslash are escaped, control characters become `\u00XX`, everything
/// else stands as it is.
pub open spec fn spec_json_escape_char(c: char) -> Seq<char> {
    if c == '"' {
        seq!['\\', '"']
    } else if c == '\\' {
        seq!['\\', '\\']
    } else if (c as u32) < 32 {
        seq!['\\', 'u', '0', '0', spec_hex_digit((c as u32) as int / 16), spec_hex_digit(
            (c as u32) as int % 16,
        )]
    } else {
        seq![c]
    }
}

/// A whole string written inside a JSON string literal.
pub open spec fn spec_json_escape(s: Seq<char>) -> Seq<char>
    decreases s.len(),
{
    if s.len() == 0 {
        Seq::empty()
    } else {
        spec_json_escape_char(s[0]) + spec_json_escape(s.drop_first())
    }
}

proof fn lemma_json_escape_snoc(s: Seq<char>, c: char)
    ensures
        spec_json_escape(s.push(c)) == spec_json_escape(s) + spec_json_escape_char(c),
    decreases s.len(),
{
    if s.len() == 0 {
        assert(s.push(c).drop_first() =~= Seq::<char>::empty());
        assert(s.push(c)[0] == c);
        assert(s.push(c).len() == 1);
        assert(spec_json_escape(s.push(c)) == spec_json_escape_char(c) + spec_json_escape(
            Seq::<char>::empty(),
        ));
        assert(spec_json_escape(Seq::<char>::empty()) == Seq::<char>::empty());
        assert(spec_json_escape_char(c) + Seq::<char>::empty() =~= spec_json_escape_char(c));
        assert(spec_json_escape(s) == Seq::<char>::empty());
        assert(Seq::<char>::empty() + spec_json_escape_char(c) =~= spec_json_escape_char(c));
    } else {
        lemma_json_escape_snoc(s.drop_first(), c);
        assert(s.push(c).drop_first() =~= s.drop_first().push(c));
        assert(s.push(c)[0] == s[0]);
        assert(spec_json_escape_char(s[0]) + (spec_json_escape(s.drop_first())
            + spec_json_escape_char(c)) =~= (spec_json_escape_char(s[0]) + spec_json_escape(
            s.drop_first(),
        )) + spec_json_escape_char(c));
    }
}

/// Escapes a string for inclusion in a JSON string literal, proved against
/// `spec_json_escape`.
pub fn json_escape(s: &str) -> (r: String)
    ensures
        r@ == spec_json_escape(s@),
{
    let n = s.unicode_len();
    let mut r = String::new();
    proof {
        assert(s@.take(0) =~= Seq::<char>::empty());
    }
    let mut i: usize = 0;
    while i < n
        invariant
            n == s@.len(),
            0 <= i <= n,
            r@ == spec_json_escape(s@.take(i as int)),
        decreases n - i,
    {
        let c = s.get_char(i);
        if c == '"' {
            r.push('\\');
            r.push('"');
        } else if c == '\\' {
            r.push('\\');
            r.push('\\');
        } else if (c as u32) < 32 {
            let u = c as u32;
            let hi: char = if u / 16 == 0 {
                '0'
            } else {
                '1'
            };
            let lo: char = match u % 16 {
                0 => '0',
                1 => '1',
                2 => '2',
                3 => '3',
                4 => '4',
                5 => '5',
                6 => '6',
                7 => '7',
                8 => '8',
                9 => '9',
                10 => 'a',
                11 => 'b',
                12 => 'c',
                13 => 'd',
                14 => 'e',
                _ => 'f',
            };
            r.push('\\');
            r.push('u');
            r.push('0');
            r.push('0');
            r.push(hi);
            r.push(lo);
        } else {
            r.push(c);
        }
        proof {
            lemma_json_escape_snoc(s@.take(i as int), s@[i as int]);
            assert(s@.take(i as int).push(s@[i as int]) =~= s@.take(i + 1));
            assert(r@ =~= spec_json_escape(s@.take(i as int)) + spec_json_escape_char(
                s@[i as int],
            ));
        }
        i += 1;
    }
    proof {
        assert(s@.take(n as int) =~= s@);
    }
    r
}

/// The fixed marketplace query endpoint.
pub fn query_url() -> (r: String)
    ensures
        r@ == "https://marketplace.visualstudio.com/_apis/public/gallery/extensionQuery"@,
{
    String::from_str("https://marketplace.visualstudio.com/_apis/public/gallery/extensionQuery")
}

/// The JSON body of a marketplace query for `publisher.package`: the default
/// flag value is 85, and the single filter criterion carries the escaped
/// extension name.
pub open spec fn spec_query_payload(publisher: Seq<char>, package: Seq<char>, flags: nat) -> Seq<
    char,
> {
    "{\"flags\": "@ + crate::strutil::spec_dec(flags)
        + ", \"filters\": [{\"criteria\": [{\"filterType\": 7, \"value\": \""@ + spec_json_escape(
        publisher + seq!['.'] + package,
    ) + "\"}], \"pageNumber\": 1, \"pageSize\": 10}]}"@
}

/// Builds the marketplace query body, proved against `spec_query_payload`.
pub fn query_payload(publisher: &str, package: &str, flags: Option<u64>) -> (r: String)
    ensures
        r@ == spec_query_payload(
            publisher@,
            package@,
            (match flags {
                Some(f) => f,
                None => 85u64,
            }) as nat,
        ),
{
    let f: u64 = match flags {
        Some(f) => f,
        None => 85,
    };
    let name = get_extension_name(publisher, package, None, None);
    let escaped = json_escape(name.as_str());
    let mut r = String::from_str("{\"flags\": ");
    r.append(crate::strutil::dec_string(f).as_str());
    r.append(", \"filters\": [{\"criteria\": [{\"filterType\": 7, \"value\": \"");
    r.append(escaped.as_str());
    r.append("\"}], \"pageNumber\": 1, \"pageSize\": 10}]}");
    r
}

/// The three fixed request headers of a marketplace query.
pub fn query_headers() -> (r: Vec<(String, String)>)
    ensures
        r@.len() == 3,
        r@[0].0@ == "Content-Type"@ && r@[0].1@ == "application/json"@,
        r@[1].0@ == "Accept"@ && r@[1].1@ == "application/json;api-version=3.0-preview.1"@,
        r@[2].0@ == "User-Agent"@ && r@[2].1@ == "Offline VSIX/1.0"@,
{
    let mut r: Vec<(String, String)> = Vec::new();
    r.push((String::from_str("Content-Type"), String::from_str("application/json")));
    r.push(
        (String::from_str("Accept"), String::from_str("application/json;api-version=3.0-preview.1")),
    );
    r.push((String::from_str("User-Agent"), String::from_str("Offline VSIX/1.0")));
    r
}

/// The download address of one fully resolved extension artifact.
pub open spec fn spec_download_url(
    publisher: Seq<char>,
    package: Seq<char>,
    version: Seq<char>,
    platform: Option<Seq<char>>,
) -> Seq<char> {
    let base = "https://marketplace.visualstudio.com/_apis/public/gallery/publishers/"@ + publisher
        + "/vsextensions/"@ + package + "/"@ + version + "/vspackage"@;
    match platform {
        Some(p) => base + "?targetPlatform="@ + p,
        None => base,
    }
}

/// Builds the download address, proved against `spec_download_url`.
pub fn extension_download_url(
    publisher: &str,
    package: &str,
    version: &str,
    platform: Option<&str>,
) -> (r: String)
    ensures
        r@ == spec_download_url(publisher@, package@, version@, platform.deep_view()),
{
    let mut r = String::from_str(
        "https://marketplace.visualstudio.com/_apis/public/gallery/publishers/",
    );
    r.append(publisher);
    r.append("/vsextensions/");
    r.append(package);
    r.append("/");
    r.append(version);
    r.append("/vspackage");
    match platform {
        Some(p) => {
            r.append("?targetPlatform=");
            r.append(p);
        },
        None => {},
    }
    r
}

/// Turns the text of a marketplace query response into the version entries
/// of its first extension record, proved against the named reading of the
/// text. A body that is not JSON is the query-info error, which names the
/// extension; well-formed JSON without such a record is the "no data" error.
pub fn parse_query_response(publisher: &str, package: &str, text: &str) -> (r: Result<
    Vec<VersionEntry>,
    String,
>)
    ensures
        match response_entries_of(text@) {
            Some(Some(es)) => r matches Ok(v) && v.deep_view() == es,
            Some(None) => r matches Err(m) && m@ == "no data found in query response"@,
            None => r matches Err(m) && m@ == "query extension "@ + spec_canonical(
                ExtensionView {
                    publisher: publisher@,
                    package: package@,
                    version: None,
                    platform: None,
                },
            ) + " info failed"@,
        },
{
    match read_response_entries(text) {
        Some(Some(v)) => Ok(v),
        Some(None) => Err(String::from_str("no data found in query response")),
        None => {
            let base = get_extension_name(publisher, package, None, None);
            let mut m = String::from_str("query extension ");
            m.append(base.as_str());
            m.append(" info failed");
            Err(m)
        },
    }
}
} // verus!
