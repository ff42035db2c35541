//! The argument model: what a caller asks for, free of any argument-parsing
//! machinery, together with the per-run summary of an extension download run.

use vstd::prelude::*;

verus! {

/// A request to download extensions.
pub struct ExtensionArgs {
    /// Inline specifier tokens, or paths to manifest or report files.
    pub extensions: Vec<String>,
    /// Where the artifacts land.
    pub download_dir: String,
    /// Whether an artifact already present is kept; unset means yes.
    pub cached: Option<bool>,
}

/// A request to download one server release.
pub struct ServerArgs {
    /// Platform override; unset means the host's platform.
    pub platform: Option<String>,
    /// Architecture override; unset means the host's architecture.
    pub arch: Option<String>,
    /// A pinned commit id; unset means the latest release.
    pub commit: Option<String>,
    /// Where the release lands; unset means the current directory.
    pub output_dir: Option<String>,
}

/// Which of the two download paths a run takes.
pub enum PortalSubcommand {
    Server(ServerArgs),
    Extension(ExtensionArgs),
}

/// One whole invocation.
pub struct PortalArgs {
    pub verbose: bool,
    pub command: PortalSubcommand,
}

/// How one specifier's download ended.
pub enum DownloadOutcome {
    /// The artifact was fetched and placed.
    Downloaded,
    /// Cache use was on and the artifact was already present.
    AlreadyPresent,
    /// The download failed; the message says why.
    Failed(String),
}

impl DownloadOutcome {
    /// Did this outcome leave the artifact in place?
    pub fn is_success(&self) -> (r: bool)
        ensures
            r == !(self is Failed),
    {
        match self {
            DownloadOutcome::Failed(_) => false,
            _ => true,
        }
    }
}

/// The canonical names whose downloads failed, in run order.
pub open spec fn spec_failed_names(results: Seq<(Seq<char>, bool)>) -> Seq<Seq<char>>
    decreases results.len(),
{
    if results.len() == 0 {
        Seq::empty()
    } else {
        let rest = spec_failed_names(results.drop_first());
        if !results[0].1 {
            seq![results[0].0] + rest
        } else {
            rest
        }
    }
}

/// Collects the names whose downloads failed, in run order, proved against
/// `spec_failed_names` over the (name, success) pairs.
pub fn failed_names(results: &Vec<(String, bool)>) -> (r: Vec<String>)
    ensures
        r.deep_view() == spec_failed_names(results.deep_view()),
{
    let ghost rv = results.deep_view();
    let n = results.len();
    let mut out: Vec<String> = Vec::new();
    proof {
        assert(rv.len() == n);
        assert(out.deep_view() =~= Seq::<Seq<char>>::empty());
        assert(rv.skip(0) =~= rv);
        assert(spec_failed_names(rv.skip(n as int)) =~= Seq::<Seq<char>>::empty());
    }
    let mut i: usize = 0;
    while i < n
        invariant
            n == results.len(),
            rv == results.deep_view(),
            rv.len() == n,
            0 <= i <= n,
            spec_failed_names(rv) == out.deep_view() + spec_failed_names(rv.skip(i as int)),
        decreases n - i,
    {
        let ghost before = out.deep_view();
        proof {
            assert(rv.skip(i as int)[0] == rv[i as int]);
            assert(rv.skip(i as int).drop_first() =~= rv.skip(i + 1));
            assert(rv[i as int] == (results[i as int].0@, results[i as int].1));
        }
        if !results[i].1 {
            let name = results[i].0.clone();
            out.push(name);
            proof {
                assert(out.deep_view() =~= before.push(rv[i as int].0));
                assert(before.push(rv[i as int].0) =~= before + seq![rv[i as int].0]);
                assert(before + seq![rv[i as int].0] + spec_failed_names(rv.skip(i + 1)) =~= before
                    + spec_failed_names(rv.skip(i as int)));
            }
        } else {
            proof {
                assert(spec_failed_names(rv.skip(i as int)) == spec_failed_names(rv.skip(i + 1)));
            }
        }
        i += 1;
    }
    proof {
        assert(out.deep_view() + Seq::<Seq<char>>::empty() =~= out.deep_view());
    }
    out
}

/// The names joined with single spaces, as the failure summary prints them.
pub open spec fn spec_join_spaces(names: Seq<Seq<char>>) -> Seq<char>
    decreases names.len(),
{
    if names.len() == 0 {
        Seq::empty()
    } else if names.len() == 1 {
        names[0]
    } else {
        names[0] + seq![' '] + spec_join_spaces(names.drop_first())
    }
}

/// Joins names with single spaces, proved against `spec_join_spaces`.
pub fn join_spaces(names: &Vec<String>) -> (r: String)
    ensures
        r@ == spec_join_spaces(names.deep_view()),
{
    let ghost nv = names.deep_view();
    let n = names.len();
    let mut r = String::new();
    proof {
        assert(nv.len() == n);
    }
    if n == 0 {
        return r;
    }
    r.append(names[0].as_str());
    proof {
        assert(nv.skip(0) =~= nv);
        assert(r@ =~= spec_join_spaces(nv.take(1int)));
    }
    let mut i: usize = 1;
    while i < n
        invariant
            n == names.len(),
            nv == names.deep_view(),
            nv.len() == n,
            1 <= i <= n,
            r@ == spec_join_spaces(nv.take(i as int)),
        decreases n - i,
    {
        r.push(' ');
        r.append(names[i].as_str());
        proof {
            lemma_join_snoc(nv.take(i as int), nv[i as int]);
            assert(nv.take(i as int).push(nv[i as int]) =~= nv.take(i + 1));
            assert(names[i as int]@ == nv[i as int]);
            assert(r@ =~= spec_join_spaces(nv.take(i as int)) + seq![' '] + nv[i as int]);
        }
        i += 1;
    }
    proof {
        assert(nv.take(n as int) =~= nv);
    }
    r
}

proof fn lemma_join_snoc(names: Seq<Seq<char>>, last: Seq<char>)
    requires
        names.len() >= 1,
    ensures
        spec_join_spaces(names.push(last)) == spec_join_spaces(names) + seq![' '] + last,
    decreases names.len(),
{
    let np = names.push(last);
    assert(np[0] == names[0]);
    if names.len() == 1 {
        assert(np.drop_first() =~= seq![last]);
        assert(spec_join_spaces(seq![last]) == last);
        assert(spec_join_spaces(np) == np[0] + seq![' '] + last);
    } else {
        lemma_join_snoc(names.drop_first(), last);
        assert(np.drop_first() =~= names.drop_first().push(last));
        assert(spec_join_spaces(np) == np[0] + seq![' '] + spec_join_spaces(
            names.drop_first().push(last),
        ));
        assert(names[0] + seq![' '] + (spec_join_spaces(names.drop_first()) + seq![' '] + last)
            =~= (names[0] + seq![' '] + spec_join_spaces(names.drop_first())) + seq![' '] + last);
    }
}

} // verus!
