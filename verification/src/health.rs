//! Health diagnostics: per-repository scoring, API-signal scoring, and
//! the composite score, each deduction matched by one explanatory
//! detail entry. The probes themselves (git status, CI runs, HTTP)
//! happen outside; this module turns their outcomes into scores.

use vstd::prelude::*;

use crate::strutil::{
    dec_int_str, dec_str, i64_to_string, lines_of, seq_lt, split_lines, starts_with_seq,
    str_starts_with, u64_to_string,
};

verus! {

/// One row of the diagnostics result, per repository.
#[derive(Debug, Clone)]
#[verifier::ext_equal]
pub struct RepoHealth {
    pub path: String,
    pub is_git_repo: bool,
    pub is_clean: Option<bool>,
    pub branch: Option<String>,
    pub last_commit_age_s: Option<i64>,
    pub ci_ok: Option<bool>,
    pub ci_duration_ms: Option<u128>,
    pub details: Vec<String>,
}

/// The composite diagnostics result.
#[derive(Debug)]
pub struct HealthScore {
    pub score: u32,
    pub api_score: u32,
    pub repos_score: u32,
    pub api_base_url: String,
    pub api_ok: bool,
    pub api_latency_ms: Option<u128>,
    pub ledger_freshness_s: Option<i64>,
    pub spawns_freshness_s: Option<i64>,
    pub repos: Vec<RepoHealth>,
    pub details: Vec<String>,
}

/// Configuration of a diagnostics run.
#[derive(Debug, Clone)]
pub struct RepoHealthOptions {
    pub repos: Vec<String>,
    pub repos_dir: Option<String>,
    pub run_ci: bool,
    pub timeout_s: u64,
}

impl Default for RepoHealthOptions {
    /// No explicit repositories, no scan directory, CI off, and a
    /// two-minute CI timeout.
    fn default() -> (r: RepoHealthOptions)
        ensures
            r.repos@.len() == 0,
            r.repos_dir is None,
            r.run_ci == false,
            r.timeout_s == 120,
    {
        RepoHealthOptions { repos: Vec::new(), repos_dir: None, run_ci: false, timeout_s: 120 }
    }
}

/// What probing one repository observed.
#[derive(Debug, Clone)]
pub struct RepoProbe {
    pub is_git_repo: bool,
    pub is_clean: Option<bool>,
    pub branch: Option<String>,
    pub last_commit_age_s: Option<i64>,
    pub ci_ok: Option<bool>,
    pub ci_duration_ms: Option<u128>,
}

/// What the data source observed about the platform.
#[derive(Debug, Clone)]
pub struct ApiSignals {
    pub api_ok: bool,
    pub api_err: Option<String>,
    pub ledger_freshness_s: Option<i64>,
    pub spawns_freshness_s: Option<i64>,
}

/// Seconds in a week: a last commit older than this counts stale.
pub const STALE_COMMIT_S: i64 = 604800;

/// Seconds in an hour: activity older than this counts stale.
pub const STALE_ACTIVITY_S: i64 = 3600;

/// The stale-repository note, with the commit age in days.
pub open spec fn stale_commit_detail(age: int) -> Seq<char> {
    "Repo stale: last commit "@ + dec_str((age / 86400) as nat) + " days ago."@
}

/// The notes that describing one probed repository adds: dirtiness,
/// staleness, and the CI outcome when CI was requested.
pub open spec fn probe_details(p: RepoProbe, run_ci: bool) -> Seq<Seq<char>> {
    (if p.is_clean == Some(false) {
        seq!["Working tree dirty."@]
    } else {
        Seq::empty()
    }) + (match p.last_commit_age_s {
        Some(age) => if age > STALE_COMMIT_S {
            seq![stale_commit_detail(age as int)]
        } else {
            Seq::empty()
        },
        None => Seq::empty(),
    }) + (if run_ci {
        match p.ci_ok {
            Some(false) => seq!["CI failed: `just ci` returned non-zero."@],
            None => seq!["CI unknown: missing `justfile` `ci:` recipe."@],
            Some(true) => Seq::empty(),
        }
    } else {
        Seq::empty()
    })
}

/// Turns one probe outcome into a result row. A path that is no
/// working tree yields a minimal row with nothing else populated and
/// the single not-a-repository note, whatever else was observed.
pub fn assemble_repo_health(path: String, probe: &RepoProbe, run_ci: bool) -> (r: RepoHealth)
    ensures
        r.path == path,
        r.is_git_repo == probe.is_git_repo,
        !probe.is_git_repo ==> {
            &&& r.is_clean is None
            &&& r.branch is None
            &&& r.last_commit_age_s is None
            &&& r.ci_ok is None
            &&& r.ci_duration_ms is None
            &&& r.details.deep_view() =~= seq!["Not a git repository."@]
        },
        probe.is_git_repo ==> {
            &&& r.is_clean == probe.is_clean
            &&& r.branch == probe.branch
            &&& r.last_commit_age_s == probe.last_commit_age_s
            &&& r.ci_ok == if run_ci {
                probe.ci_ok
            } else {
                None::<bool>
            }
            &&& r.ci_duration_ms == if run_ci {
                probe.ci_duration_ms
            } else {
                None::<u128>
            }
            &&& r.details.deep_view() == probe_details(*probe, run_ci)
        },
{
    if !probe.is_git_repo {
        let mut details: Vec<String> = Vec::new();
        details.push("Not a git repository.".to_owned());
        proof {
            assert(details.deep_view() =~= seq!["Not a git repository."@]);
        }
        return RepoHealth {
            path,
            is_git_repo: false,
            is_clean: None,
            branch: None,
            last_commit_age_s: None,
            ci_ok: None,
            ci_duration_ms: None,
            details,
        };
    }
    let mut details: Vec<String> = Vec::new();
    if let Some(false) = probe.is_clean {
        details.push("Working tree dirty.".to_owned());
    }
    let ghost d1 = details.deep_view();
    proof {
        assert(d1 =~= if probe.is_clean == Some(false) {
            seq!["Working tree dirty."@]
        } else {
            Seq::empty()
        });
    }
    if let Some(age) = probe.last_commit_age_s {
        if age > STALE_COMMIT_S {
            let mut line = String::new();
            line.append("Repo stale: last commit ");
            let days = u64_to_string((age / 86400) as u64);
            line.append(days.as_str());
            line.append(" days ago.");
            proof {
                assert(line@ =~= stale_commit_detail(age as int));
            }
            details.push(line);
        }
    }
    let ghost d2 = details.deep_view();
    proof {
        assert(d2 =~= d1 + (match probe.last_commit_age_s {
            Some(age) => if age > STALE_COMMIT_S {
                seq![stale_commit_detail(age as int)]
            } else {
                Seq::<Seq<char>>::empty()
            },
            None => Seq::<Seq<char>>::empty(),
        }));
    }
    let ci_ok = if run_ci {
        probe.ci_ok
    } else {
        None
    };
    let ci_duration_ms = if run_ci {
        probe.ci_duration_ms
    } else {
        None
    };
    if run_ci {
        match probe.ci_ok {
            Some(false) => {
                details.push("CI failed: `just ci` returned non-zero.".to_owned());
            },
            None => {
                details.push("CI unknown: missing `justfile` `ci:` recipe.".to_owned());
            },
            Some(true) => {},
        }
    }
    proof {
        assert(details.deep_view() =~= probe_details(*probe, run_ci));
    }
    RepoHealth {
        path,
        is_git_repo: true,
        is_clean: probe.is_clean,
        branch: probe.branch.clone(),
        last_commit_age_s: probe.last_commit_age_s,
        ci_ok,
        ci_duration_ms,
        details,
    }
}

/// The points one repository row loses: ten when it is no working
/// tree at all (terminal), else ten for a dirty tree, five for a week
/// without commits, and with CI requested thirty for a failed run or
/// five for a missing recipe.
pub open spec fn repo_penalty(r: RepoHealth, run_ci: bool) -> int {
    if !r.is_git_repo {
        10
    } else {
        (if r.is_clean == Some(false) {
            10int
        } else {
            0int
        }) + (match r.last_commit_age_s {
            Some(age) => if age > STALE_COMMIT_S {
                5int
            } else {
                0int
            },
            None => 0int,
        }) + (if run_ci {
            match r.ci_ok {
                Some(false) => 30int,
                None => 5int,
                Some(true) => 0int,
            }
        } else {
            0int
        })
    }
}

/// The notes that scoring one repository row adds, one per deduction.
pub open spec fn repo_score_details(r: RepoHealth, run_ci: bool) -> Seq<Seq<char>> {
    if !r.is_git_repo {
        seq!["Not a git repo."@]
    } else {
        (if r.is_clean == Some(false) {
            seq!["Dirty working tree."@]
        } else {
            Seq::empty()
        }) + (match r.last_commit_age_s {
            Some(age) => if age > STALE_COMMIT_S {
                seq!["No commits in 7d."@]
            } else {
                Seq::empty()
            },
            None => Seq::empty(),
        }) + (if run_ci {
            match r.ci_ok {
                Some(false) => seq!["`just ci` failed."@],
                None => seq!["No `just ci` recipe."@],
                Some(true) => Seq::empty(),
            }
        } else {
            Seq::empty()
        })
    }
}

/// Scores one repository row: a hundred less its deductions, each
/// matched by one note; a full score has no notes and no note comes
/// without a deduction.
pub fn repo_score(repo: &RepoHealth, run_ci: bool) -> (r: (u32, Vec<String>))
    ensures
        r.0 as int == 100 - repo_penalty(*repo, run_ci),
        0 <= r.0 <= 100,
        r.1.deep_view() == repo_score_details(*repo, run_ci),
        (r.0 == 100) <==> r.1@.len() == 0,
{
    let mut details: Vec<String> = Vec::new();
    if !repo.is_git_repo {
        details.push("Not a git repo.".to_owned());
        proof {
            assert(details.deep_view() =~= seq!["Not a git repo."@]);
        }
        return (90, details);
    }
    let mut score: u32 = 100;
    if let Some(false) = repo.is_clean {
        score = score - 10;
        details.push("Dirty working tree.".to_owned());
    }
    let ghost d1 = details.deep_view();
    if let Some(age) = repo.last_commit_age_s {
        if age > STALE_COMMIT_S {
            score = score - 5;
            details.push("No commits in 7d.".to_owned());
        }
    }
    if run_ci {
        match repo.ci_ok {
            Some(false) => {
                score = score - 30;
                details.push("`just ci` failed.".to_owned());
            },
            None => {
                score = score - 5;
                details.push("No `just ci` recipe.".to_owned());
            },
            Some(true) => {},
        }
    }
    proof {
        assert(details.deep_view() =~= repo_score_details(*repo, run_ci));
    }
    (score, details)
}

/// Whether a build-recipe file declares a CI recipe: some line is
/// exactly `ci:` or begins with `ci: `.
pub open spec fn has_ci_line(justfile: Seq<char>) -> bool {
    exists|i: int|
        0 <= i < lines_of(justfile).len() && ((#[trigger] lines_of(justfile)[i]) == "ci:"@
            || starts_with_seq(lines_of(justfile)[i], "ci: "@))
}

/// Scans a recipe file's text for a declared CI recipe.
pub fn has_ci_recipe(justfile: &str) -> (r: bool)
    ensures
        r == has_ci_line(justfile@),
{
    let pieces = split_lines(justfile);
    let n = pieces.len();
    let mut i: usize = 0;
    while i < n
        invariant
            n == pieces.len(),
            pieces.deep_view() == lines_of(justfile@),
            i <= n,
            forall|k: int|
                0 <= k < i ==> !((#[trigger] lines_of(justfile@)[k]) == "ci:"@ || starts_with_seq(
                    lines_of(justfile@)[k],
                    "ci: "@,
                )),
        decreases n - i,
    {
        proof {
            assert(pieces.deep_view()[i as int] == pieces@[i as int]@);
        }
        if crate::strutil::str_eq(pieces[i].as_str(), "ci:") || str_starts_with(
            pieces[i].as_str(),
            "ci: ",
        ) {
            return true;
        }
        i = i + 1;
    }
    false
}

/// The connectivity note: the single entry for a failed reachability
/// probe, carrying the probe's own error text when there was one.
pub open spec fn connectivity_detail(err: Option<String>) -> Seq<char> {
    match err {
        Some(e) => "API health check failed (or DB disconnected): "@ + e@,
        None => "API health check failed (or DB disconnected)."@,
    }
}

/// The stale-ledger note, with the newest entry's age in seconds.
pub open spec fn ledger_stale_detail(age: int) -> Seq<char> {
    "Ledger stale: last event "@ + dec_int_str(age) + "s ago."@
}

/// The stale-spawns note, with the last activity's age in seconds.
pub open spec fn spawns_stale_detail(age: int) -> Seq<char> {
    "Spawns stale: last activity "@ + dec_int_str(age) + "s ago."@
}

/// The points the platform signals lose: sixty when the reachability
/// probe failed or reported the store disconnected, and ten each for
/// ledger freshness unknown or stale and spawn freshness unknown or
/// stale.
pub open spec fn api_penalty(sig: ApiSignals) -> int {
    (if !sig.api_ok {
        60int
    } else {
        0int
    }) + (match sig.ledger_freshness_s {
        None => 10int,
        Some(age) => if age > STALE_ACTIVITY_S {
            10int
        } else {
            0int
        },
    }) + (match sig.spawns_freshness_s {
        None => 10int,
        Some(age) => if age > STALE_ACTIVITY_S {
            10int
        } else {
            0int
        },
    })
}

/// The notes the platform signals add, exactly one per deduction; a
/// failed probe's error text rides inside its one connectivity note.
pub open spec fn api_details(sig: ApiSignals) -> Seq<Seq<char>> {
    (if !sig.api_ok {
        seq![connectivity_detail(sig.api_err)]
    } else {
        Seq::empty()
    }) + (match sig.ledger_freshness_s {
        None => seq!["Ledger freshness unknown (no events or parse failed)."@],
        Some(age) => if age > STALE_ACTIVITY_S {
            seq![ledger_stale_detail(age as int)]
        } else {
            Seq::empty()
        },
    }) + (match sig.spawns_freshness_s {
        None => seq!["Spawns freshness unknown (no spawns or parse failed)."@],
        Some(age) => if age > STALE_ACTIVITY_S {
            seq![spawns_stale_detail(age as int)]
        } else {
            Seq::empty()
        },
    })
}

/// Scores the platform signals: a hundred less the deductions, each
/// matched by its note; a full score has no notes and no note comes
/// without a deduction.
pub fn api_score_details(sig: &ApiSignals) -> (r: (u32, Vec<String>))
    ensures
        r.0 as int == 100 - api_penalty(*sig),
        0 <= r.0 <= 100,
        r.1.deep_view() == api_details(*sig),
        (r.0 == 100) <==> r.1@.len() == 0,
{
    let mut details: Vec<String> = Vec::new();
    let mut score: u32 = 100;
    if !sig.api_ok {
        score = score - 60;
        match &sig.api_err {
            Some(e) => {
                let mut line = String::new();
                line.append("API health check failed (or DB disconnected): ");
                line.append(e.as_str());
                proof {
                    assert(line@ =~= connectivity_detail(sig.api_err));
                }
                details.push(line);
            },
            None => {
                details.push("API health check failed (or DB disconnected).".to_owned());
            },
        }
    }
    let ghost d1 = details.deep_view();
    proof {
        assert(d1 =~= if !sig.api_ok {
            seq![connectivity_detail(sig.api_err)]
        } else {
            Seq::<Seq<char>>::empty()
        });
    }
    match &sig.ledger_freshness_s {
        None => {
            score = score - 10;
            details.push("Ledger freshness unknown (no events or parse failed).".to_owned());
        },
        Some(age) => {
            if *age > STALE_ACTIVITY_S {
                score = score - 10;
                let mut line = String::new();
                line.append("Ledger stale: last event ");
                let n = i64_to_string(*age);
                line.append(n.as_str());
                line.append("s ago.");
                proof {
                    assert(line@ =~= ledger_stale_detail(*age as int));
                }
                details.push(line);
            }
        },
    }
    match &sig.spawns_freshness_s {
        None => {
            score = score - 10;
            details.push("Spawns freshness unknown (no spawns or parse failed).".to_owned());
        },
        Some(age) => {
            if *age > STALE_ACTIVITY_S {
                score = score - 10;
                let mut line = String::new();
                line.append("Spawns stale: last activity ");
                let n = i64_to_string(*age);
                line.append(n.as_str());
                line.append("s ago.");
                proof {
                    assert(line@ =~= spawns_stale_detail(*age as int));
                }
                details.push(line);
            }
        },
    }
    proof {
        assert(details.deep_view() =~= api_details(*sig));
    }
    (score, details)
}

/// Deductions and notes are each other's evidence: the platform
/// signals lose no points exactly when they add no notes.
pub proof fn law_api_score_evidence(sig: ApiSignals)
    ensures
        (api_penalty(sig) == 0) <==> (api_details(sig).len() == 0),
{
}

/// Deductions and notes are each other's evidence: a repository row
/// loses no points exactly when scoring adds no notes for it.
pub proof fn law_repo_score_evidence(r: RepoHealth, run_ci: bool)
    ensures
        (repo_penalty(r, run_ci) == 0) <==> (repo_score_details(r, run_ci).len() == 0),
{
}

/// The smaller of two values.
pub open spec fn min_i(a: int, b: int) -> int {
    if a < b {
        a
    } else {
        b
    }
}

/// The least of the scores, starting from a hundred.
pub open spec fn fold_min100(s: Seq<int>) -> int
    decreases s.len(),
{
    if s.len() == 0 {
        100
    } else {
        min_i(fold_min100(s.drop_last()), s.last())
    }
}

/// The scores of the repository rows.
pub open spec fn repo_scores(rs: Seq<RepoHealth>, run_ci: bool) -> Seq<int> {
    rs.map_values(|r: RepoHealth| 100 - repo_penalty(r, run_ci))
}

/// The degraded-repository note, naming the path and its score.
pub open spec fn degraded_line(path: Seq<char>, score: int) -> Seq<char> {
    "Repo degraded: "@ + path + " ("@ + dec_str(score as nat) + "/100)"@
}

/// The degraded-repository notes, one per repository scoring under a
/// hundred, in repository order.
pub open spec fn degraded_lines(rs: Seq<RepoHealth>, run_ci: bool) -> Seq<Seq<char>>
    decreases rs.len(),
{
    if rs.len() == 0 {
        Seq::empty()
    } else {
        degraded_lines(rs.drop_last(), run_ci) + (if repo_penalty(rs.last(), run_ci) > 0 {
            seq![degraded_line(rs.last().path@, 100 - repo_penalty(rs.last(), run_ci))]
        } else {
            Seq::empty()
        })
    }
}

/// The least score never rises above any element or above a hundred,
/// and is a hundred or one of the elements.
pub proof fn lemma_fold_min100_props(s: Seq<int>)
    ensures
        fold_min100(s) <= 100,
        forall|i: int| 0 <= i < s.len() ==> fold_min100(s) <= #[trigger] s[i],
        fold_min100(s) == 100 || s.contains(fold_min100(s)),
    decreases s.len(),
{
    if s.len() > 0 {
        lemma_fold_min100_props(s.drop_last());
        assert forall|i: int| 0 <= i < s.len() implies fold_min100(s) <= #[trigger] s[i] by {
            if i < s.len() - 1 {
                assert(s.drop_last()[i] == s[i]);
            }
        }
        if fold_min100(s) != 100 {
            if fold_min100(s) == s.last() {
                assert(s.contains(fold_min100(s)));
            } else {
                assert(s.drop_last().contains(fold_min100(s)));
                let i = choose|i: int|
                    0 <= i < s.drop_last().len() && s.drop_last()[i] == fold_min100(s);
                assert(s[i] == fold_min100(s));
            }
        }
    }
}

/// Repository scores drag the least score the same way in any order:
/// two listings with the same scores as a bag fold to the same least
/// score.
pub proof fn law_repos_score_order_independent(a: Seq<int>, b: Seq<int>)
    requires
        a.to_multiset() == b.to_multiset(),
    ensures
        fold_min100(a) == fold_min100(b),
{
    broadcast use vstd::seq_lib::group_to_multiset_ensures;

    lemma_fold_min100_props(a);
    lemma_fold_min100_props(b);
    if fold_min100(a) < fold_min100(b) {
        assert(fold_min100(a) != 100);
        assert(a.contains(fold_min100(a)));
        assert(a.to_multiset().count(fold_min100(a)) > 0);
        assert(b.contains(fold_min100(a)));
        let i = choose|i: int| 0 <= i < b.len() && b[i] == fold_min100(a);
        assert(fold_min100(b) <= b[i]);
        assert(false);
    }
    if fold_min100(b) < fold_min100(a) {
        assert(fold_min100(b) != 100);
        assert(b.contains(fold_min100(b)));
        assert(b.to_multiset().count(fold_min100(b)) > 0);
        assert(a.contains(fold_min100(b)));
        let i = choose|i: int| 0 <= i < a.len() && a[i] == fold_min100(b);
        assert(fold_min100(a) <= a[i]);
        assert(false);
    }
}

/// Reordering rows reorders their scores: two listings holding the
/// same rows as a bag hold the same scores as a bag.
proof fn lemma_repo_scores_multiset(a: Seq<RepoHealth>, b: Seq<RepoHealth>, run_ci: bool)
    requires
        a.to_multiset() == b.to_multiset(),
    ensures
        repo_scores(a, run_ci).to_multiset() == repo_scores(b, run_ci).to_multiset(),
    decreases a.len(),
{
    broadcast use vstd::seq_lib::group_to_multiset_ensures;

    if a.len() == 0 {
        assert(a.to_multiset().len() == a.len());
        assert(b.to_multiset().len() == b.len());
        assert(b.len() == 0);
        assert(repo_scores(a, run_ci) =~= Seq::<int>::empty());
        assert(repo_scores(b, run_ci) =~= Seq::<int>::empty());
    } else {
        let x = a.last();
        assert(a.contains(x));
        assert(a.to_multiset().count(x) > 0);
        assert(b.contains(x));
        let j = choose|j: int| 0 <= j < b.len() && b[j] == x;
        let a2 = a.drop_last();
        let b2 = b.remove(j);
        assert(a2 =~= a.remove(a.len() - 1));
        assert(a2.to_multiset() =~= a.to_multiset().remove(x));
        assert(b2.to_multiset() =~= b.to_multiset().remove(x));
        lemma_repo_scores_multiset(a2, b2, run_ci);
        let sx = 100 - repo_penalty(x, run_ci);
        assert(repo_scores(a, run_ci) =~= repo_scores(a2, run_ci).push(sx));
        assert(repo_scores(b2, run_ci) =~= repo_scores(b, run_ci).remove(j));
        assert(repo_scores(a, run_ci).to_multiset() =~= repo_scores(a2, run_ci).to_multiset().insert(
            sx,
        ));
        assert(repo_scores(b, run_ci).remove(j).to_multiset() =~= repo_scores(
            b,
            run_ci,
        ).to_multiset().remove(repo_scores(b, run_ci)[j]));
        assert(repo_scores(b, run_ci)[j] == sx);
        assert(repo_scores(b, run_ci).contains(sx));
        assert(repo_scores(b, run_ci).to_multiset().count(sx) > 0);
        assert(repo_scores(a, run_ci).to_multiset() =~= repo_scores(b, run_ci).to_multiset().remove(
            sx,
        ).insert(sx));
        assert(repo_scores(b, run_ci).to_multiset().remove(sx).insert(sx) =~= repo_scores(
            b,
            run_ci,
        ).to_multiset());
    }
}

/// Permuting the repository listing never changes the repository
/// score: the least row score is the same whatever the order.
pub proof fn law_repos_score_permutation(a: Seq<RepoHealth>, b: Seq<RepoHealth>, run_ci: bool)
    requires
        a.to_multiset() == b.to_multiset(),
    ensures
        fold_min100(repo_scores(a, run_ci)) == fold_min100(repo_scores(b, run_ci)),
{
    lemma_repo_scores_multiset(a, b, run_ci);
    law_repos_score_order_independent(repo_scores(a, run_ci), repo_scores(b, run_ci));
}

/// Combines the platform signals and the probed repositories into the
/// composite score: both sub-scores stay within zero and a hundred,
/// the total is the smaller of the two, the repository score is the
/// least row score, every row keeps its probe notes followed by its
/// scoring notes, and the top-level notes are the platform notes
/// followed by one degraded line per row under a hundred.
pub fn compose_health_score(
    api_base_url: String,
    api_latency_ms: Option<u128>,
    sig: ApiSignals,
    probed: Vec<RepoHealth>,
    run_ci: bool,
) -> (r: HealthScore)
    ensures
        0 <= r.score <= 100,
        0 <= r.api_score <= 100,
        0 <= r.repos_score <= 100,
        r.score as int == min_i(r.api_score as int, r.repos_score as int),
        r.api_score as int == 100 - api_penalty(sig),
        r.repos_score as int == fold_min100(repo_scores(probed@, run_ci)),
        r.api_base_url == api_base_url,
        r.api_ok == sig.api_ok,
        r.api_latency_ms == api_latency_ms,
        r.ledger_freshness_s == sig.ledger_freshness_s,
        r.spawns_freshness_s == sig.spawns_freshness_s,
        r.repos@.len() == probed@.len(),
        forall|i: int|
            0 <= i < probed@.len() ==> #[trigger] r.repos@[i] == (RepoHealth {
                details: r.repos@[i].details,
                ..probed@[i]
            }) && r.repos@[i].details.deep_view() == probed@[i].details.deep_view()
                + repo_score_details(probed@[i], run_ci),
        r.details.deep_view() == api_details(sig) + degraded_lines(probed@, run_ci),
{
    let ghost orig = probed@;
    let mut work = probed;
    let (api_score, mut details) = api_score_details(&sig);
    let ghost api_d = details.deep_view();
    let n = work.len();
    let mut repos_health: Vec<RepoHealth> = Vec::new();
    let mut repos_score: u32 = 100;
    let mut i: usize = 0;
    proof {
        assert(repo_scores(orig.take(0), run_ci) =~= Seq::<int>::empty());
        assert(degraded_lines(orig.take(0), run_ci) =~= Seq::<Seq<char>>::empty());
        assert(details.deep_view() =~= api_d + degraded_lines(orig.take(0), run_ci));
        assert(work@ =~= orig.skip(0));
    }
    while i < n
        invariant
            n == orig.len(),
            i <= n,
            work@ == orig.skip(i as int),
            api_d == api_details(sig),
            repos_health@.len() == i,
            forall|k: int|
                0 <= k < i ==> #[trigger] repos_health@[k] == (RepoHealth {
                    details: repos_health@[k].details,
                    ..orig[k]
                }) && repos_health@[k].details.deep_view() == orig[k].details.deep_view()
                    + repo_score_details(orig[k], run_ci),
            repos_score as int == fold_min100(repo_scores(orig.take(i as int), run_ci)),
            repos_score <= 100,
            details.deep_view() == api_d + degraded_lines(orig.take(i as int), run_ci),
        decreases n - i,
    {
        let mut rh = work.remove(0);
        proof {
            assert(orig.skip(i as int)[0] == orig[i as int]);
            assert(rh == orig[i as int]);
            assert(orig.skip(i as int).remove(0) =~= orig.skip(i + 1));
        }
        let (score, score_details) = repo_score(&rh, run_ci);
        let ghost pre_rh_d = rh.details.deep_view();
        let mut sd = score_details;
        let ghost sd_d = sd.deep_view();
        rh.details.append(&mut sd);
        proof {
            assert(rh.details.deep_view() =~= pre_rh_d + sd_d);
            assert(rh =~= (RepoHealth { details: rh.details, ..orig[i as int] }));
        }
        let degraded = score < 100;
        if score < repos_score {
            repos_score = score;
        }
        let ghost pre_details = details.deep_view();
        if degraded {
            let mut line = String::new();
            line.append("Repo degraded: ");
            line.append(rh.path.as_str());
            line.append(" (");
            let sc = u64_to_string(score as u64);
            line.append(sc.as_str());
            line.append("/100)");
            proof {
                assert(line@ =~= degraded_line(
                    orig[i as int].path@,
                    100 - repo_penalty(orig[i as int], run_ci),
                ));
            }
            details.push(line);
        }
        repos_health.push(rh);
        proof {
            let pre = orig.take(i as int);
            let cur = orig.take(i + 1);
            assert(cur.drop_last() =~= pre);
            assert(cur.last() == orig[i as int]);
            assert(repo_scores(cur, run_ci).drop_last() =~= repo_scores(pre, run_ci));
            assert(repo_scores(cur, run_ci).last() == 100 - repo_penalty(orig[i as int], run_ci));
            assert(fold_min100(repo_scores(cur, run_ci)) == min_i(
                fold_min100(repo_scores(pre, run_ci)),
                100 - repo_penalty(orig[i as int], run_ci),
            ));
            if degraded {
                assert(details.deep_view() =~= pre_details.push(degraded_line(
                    orig[i as int].path@,
                    100 - repo_penalty(orig[i as int], run_ci),
                )));
                assert(details.deep_view() =~= api_d + degraded_lines(cur, run_ci));
            } else {
                assert(details.deep_view() =~= api_d + degraded_lines(cur, run_ci));
            }
        }
        i = i + 1;
    }
    proof {
        assert(orig.take(n as int) =~= orig);
    }
    let score = if api_score < repos_score {
        api_score
    } else {
        repos_score
    };
    HealthScore {
        score,
        api_score,
        repos_score,
        api_base_url,
        api_ok: sig.api_ok,
        api_latency_ms,
        ledger_freshness_s: sig.ledger_freshness_s,
        spawns_freshness_s: sig.spawns_freshness_s,
        repos: repos_health,
        details,
    }
}

/// Strictly ascending paths: sorted with no duplicates.
pub open spec fn sorted_unique(s: Seq<Seq<char>>) -> bool {
    forall|i: int, j: int| 0 <= i < j < s.len() ==> seq_lt(#[trigger] s[i], #[trigger] s[j])
}

/// Finds where `x` belongs in an ascending vector: the first place
/// whose entry does not order below `x`.
fn find_insert_pos(v: &Vec<String>, x: &str) -> (i: usize)
    ensures
        i <= v.len(),
        forall|k: int| 0 <= k < i ==> seq_lt(#[trigger] v.deep_view()[k], x@),
        i < v.len() ==> !seq_lt(v.deep_view()[i as int], x@),
{
    let n = v.len();
    let mut i: usize = 0;
    while i < n
        invariant
            n == v.len(),
            i <= n,
            forall|k: int| 0 <= k < i ==> seq_lt(#[trigger] v.deep_view()[k], x@),
        decreases n - i,
    {
        proof {
            assert(v.deep_view()[i as int] == v@[i as int]@);
        }
        if !crate::strutil::str_lt(v[i].as_str(), x) {
            return i;
        }
        i = i + 1;
    }
    i
}

/// Puts `x` into a strictly ascending vector, keeping it strictly
/// ascending; a value already present is left alone.
#[verifier::rlimit(50)]
fn insert_sorted(v: &mut Vec<String>, x: String)
    requires
        sorted_unique(old(v).deep_view()),
    ensures
        sorted_unique(final(v).deep_view()),
        forall|y: Seq<char>|
            #[trigger] final(v).deep_view().contains(y) == (old(v).deep_view().contains(y) || y
                == x@),
{
    let ghost dv = v.deep_view();
    let ghost xv = x@;
    let n = v.len();
    let i = find_insert_pos(v, x.as_str());
    if i < n {
        if crate::strutil::str_eq(v[i].as_str(), x.as_str()) {
            proof {
                assert(dv[i as int] == xv);
                assert(dv.contains(xv));
                assert forall|y: Seq<char>|
                    #[trigger] v.deep_view().contains(y) == (dv.contains(y) || y == xv) by {}
            }
            return ;
        }
    }
    proof {
        if i < n {
            crate::strutil::lemma_seq_lt_connected(dv[i as int], xv);
            assert(seq_lt(xv, dv[i as int]));
        }
    }
    let ghost pos = i as int;
    v.insert(i, x);
    proof {
        let dv2 = v.deep_view();
        assert(dv2 =~= dv.insert(pos, xv)) by {
            assert(v@ =~= old(v)@.insert(pos, x));
            assert forall|k: int| 0 <= k < dv2.len() implies dv2[k] == dv.insert(pos, xv)[k] by {
                dv.insert_ensures(pos, xv);
                old(v)@.insert_ensures(pos, x);
                if k < pos {
                    assert(v@[k] == old(v)@[k]);
                } else if k == pos {
                    assert(v@[k] == x);
                } else {
                    assert(v@[k] == old(v)@[k - 1]);
                }
            }
        }
        dv.insert_ensures(pos, xv);
        assert forall|a: int, b: int| 0 <= a < b < dv2.len() implies seq_lt(dv2[a], dv2[b]) by {
            if b < pos {
                assert(seq_lt(dv[a], dv[b]));
            } else if a < pos && b == pos {
                assert(dv2[b] == xv);
                assert(seq_lt(dv[a], xv));
            } else if a < pos && b > pos {
                assert(dv2[b] == dv[b - 1]);
                if b - 1 == a {
                    assert(seq_lt(dv[a], xv));
                    assert(b - 1 >= pos);
                    assert(false);
                }
                assert(seq_lt(dv[a], dv[b - 1]));
            } else if a == pos {
                assert(dv2[a] == xv);
                assert(dv2[b] == dv[b - 1]);
                assert(b - 1 >= pos);
                if b - 1 == pos {
                    assert(i < n);
                    assert(seq_lt(xv, dv[pos]));
                } else {
                    assert(i < n);
                    assert(seq_lt(xv, dv[pos]));
                    assert(seq_lt(dv[pos], dv[b - 1]));
                    crate::strutil::lemma_seq_lt_trans(xv, dv[pos], dv[b - 1]);
                }
            } else {
                assert(dv2[a] == dv[a - 1]);
                assert(dv2[b] == dv[b - 1]);
                assert(seq_lt(dv[a - 1], dv[b - 1]));
            }
        }
        assert forall|y: Seq<char>|
            #[trigger] dv2.contains(y) == (dv.contains(y) || y == xv) by {
            if dv2.contains(y) {
                let k = choose|k: int| 0 <= k < dv2.len() && dv2[k] == y;
                if k < pos {
                    assert(dv[k] == y);
                } else if k == pos {
                    assert(y == xv);
                } else {
                    assert(dv[k - 1] == y);
                }
            }
            if dv.contains(y) {
                let k = choose|k: int| 0 <= k < dv.len() && dv[k] == y;
                if k < pos {
                    assert(dv2[k] == y);
                } else {
                    assert(dv2[k + 1] == y);
                }
            }
            if y == xv {
                assert(dv2[pos] == y);
            }
        }
    }
}

/// Combines the explicit repository list with a directory scan into a
/// deduplicated, strictly ascending listing; when both are empty the
/// fallback path stands alone, so there is always a target.
pub fn discover_repos(explicit: &Vec<String>, scanned: &Vec<String>, fallback: String) -> (r: Vec<
    String,
>)
    ensures
        explicit@.len() == 0 && scanned@.len() == 0 ==> r.deep_view() =~= seq![fallback@],
        explicit@.len() + scanned@.len() > 0 ==> {
            &&& sorted_unique(r.deep_view())
            &&& forall|y: Seq<char>|
                #[trigger] r.deep_view().contains(y) == (explicit.deep_view().contains(y)
                    || scanned.deep_view().contains(y))
        },
{
    let mut out: Vec<String> = Vec::new();
    let ghost edv = explicit.deep_view();
    let ghost sdv = scanned.deep_view();
    let ne = explicit.len();
    let mut i: usize = 0;
    while i < ne
        invariant
            ne == explicit.len(),
            edv == explicit.deep_view(),
            i <= ne,
            sorted_unique(out.deep_view()),
            forall|y: Seq<char>|
                #[trigger] out.deep_view().contains(y) == edv.take(i as int).contains(y),
        decreases ne - i,
    {
        let item = explicit[i].clone();
        proof {
            assert(item@ == edv[i as int]);
        }
        insert_sorted(&mut out, item);
        proof {
            let pre = edv.take(i as int);
            let cur = edv.take(i + 1);
            assert forall|y: Seq<char>|
                #[trigger] out.deep_view().contains(y) == cur.contains(y) by {
                if cur.contains(y) {
                    let k = choose|k: int| 0 <= k < cur.len() && cur[k] == y;
                    if k < i {
                        assert(pre[k] == y);
                        assert(pre.contains(y));
                    }
                }
                if pre.contains(y) {
                    let k = choose|k: int| 0 <= k < pre.len() && pre[k] == y;
                    assert(cur[k] == y);
                }
                if y == edv[i as int] {
                    assert(cur[i as int] == y);
                }
            }
        }
        i = i + 1;
    }
    proof {
        assert(edv.take(ne as int) =~= edv);
    }
    let ns = scanned.len();
    let mut j: usize = 0;
    while j < ns
        invariant
            ns == scanned.len(),
            sdv == scanned.deep_view(),
            edv == explicit.deep_view(),
            j <= ns,
            sorted_unique(out.deep_view()),
            forall|y: Seq<char>|
                #[trigger] out.deep_view().contains(y) == (edv.contains(y) || sdv.take(
                    j as int,
                ).contains(y)),
        decreases ns - j,
    {
        let item = scanned[j].clone();
        proof {
            assert(item@ == sdv[j as int]);
        }
        insert_sorted(&mut out, item);
        proof {
            let pre = sdv.take(j as int);
            let cur = sdv.take(j + 1);
            assert forall|y: Seq<char>|
                #[trigger] out.deep_view().contains(y) == (edv.contains(y) || cur.contains(y)) by {
                if cur.contains(y) {
                    let k = choose|k: int| 0 <= k < cur.len() && cur[k] == y;
                    if k < j {
                        assert(pre[k] == y);
                        assert(pre.contains(y));
                    }
                }
                if pre.contains(y) {
                    let k = choose|k: int| 0 <= k < pre.len() && pre[k] == y;
                    assert(cur[k] == y);
                }
                if y == sdv[j as int] {
                    assert(cur[j as int] == y);
                }
            }
        }
        j = j + 1;
    }
    proof {
        assert(sdv.take(ns as int) =~= sdv);
    }
    proof {
        if edv.len() == 0 && sdv.len() == 0 && out.deep_view().len() > 0 {
            assert(out.deep_view().contains(out.deep_view()[0]));
            assert(false);
        }
    }
    if out.len() == 0 {
        proof {
            if edv.len() > 0 {
                assert(edv.contains(edv[0]));
                assert(out.deep_view().contains(edv[0]));
                assert(false);
            }
            if sdv.len() > 0 {
                assert(sdv.contains(sdv[0]));
                assert(out.deep_view().contains(sdv[0]));
                assert(false);
            }
        }
        out.push(fallback);
        proof {
            assert(out.deep_view() =~= seq![fallback@]);
        }
    }
    out
}

/// Discovery is a function of the candidate set alone: two strictly
/// ascending listings holding the same paths are the same listing, so
/// running discovery again, or in another order, changes nothing.
pub proof fn law_discovery_deterministic(a: Seq<Seq<char>>, b: Seq<Seq<char>>)
    requires
        sorted_unique(a),
        sorted_unique(b),
        forall|y: Seq<char>| #[trigger] a.contains(y) == b.contains(y),
    ensures
        a == b,
    decreases a.len(),
{
    if a.len() == 0 {
        if b.len() > 0 {
            assert(b.contains(b[0]));
            assert(a.contains(b[0]));
            assert(false);
        }
        assert(a =~= b);
    } else {
        assert(a.contains(a[0]));
        assert(b.contains(a[0]));
        let j = choose|j: int| 0 <= j < b.len() && b[j] == a[0];
        if j > 0 {
            assert(seq_lt(b[0], b[j]));
            assert(a.contains(b[0]));
            let k = choose|k: int| 0 <= k < a.len() && a[k] == b[0];
            if k == 0 {
                crate::strutil::lemma_seq_lt_asym(b[0], b[j]);
                assert(false);
            } else {
                assert(seq_lt(a[0], a[k]));
                crate::strutil::lemma_seq_lt_asym(b[0], a[0]);
                assert(false);
            }
        }
        assert(b[0] == a[0]);
        let at = a.drop_first();
        let bt = b.drop_first();
        assert(sorted_unique(at)) by {
            assert forall|p: int, q: int| 0 <= p < q < at.len() implies seq_lt(at[p], at[q]) by {
                assert(at[p] == a[p + 1]);
                assert(at[q] == a[q + 1]);
            }
        }
        assert(sorted_unique(bt)) by {
            assert forall|p: int, q: int| 0 <= p < q < bt.len() implies seq_lt(bt[p], bt[q]) by {
                assert(bt[p] == b[p + 1]);
                assert(bt[q] == b[q + 1]);
            }
        }
        assert forall|y: Seq<char>| #[trigger] at.contains(y) == bt.contains(y) by {
            if at.contains(y) {
                let p = choose|p: int| 0 <= p < at.len() && at[p] == y;
                assert(a[p + 1] == y);
                assert(seq_lt(a[0], y));
                assert(a.contains(y));
                assert(b.contains(y));
                let q = choose|q: int| 0 <= q < b.len() && b[q] == y;
                if q == 0 {
                    crate::strutil::lemma_seq_lt_asym(a[0], y);
                    assert(false);
                }
                assert(bt[q - 1] == y);
            }
            if bt.contains(y) {
                let q = choose|q: int| 0 <= q < bt.len() && bt[q] == y;
                assert(b[q + 1] == y);
                assert(seq_lt(b[0], y));
                assert(b.contains(y));
                assert(a.contains(y));
                let p = choose|p: int| 0 <= p < a.len() && a[p] == y;
                if p == 0 {
                    crate::strutil::lemma_seq_lt_asym(b[0], y);
                    assert(false);
                }
                assert(at[p - 1] == y);
            }
        }
        law_discovery_deterministic(at, bt);
        assert(a =~= b) by {
            assert(a.len() == b.len());
            assert forall|p: int| 0 <= p < a.len() implies a[p] == b[p] by {
                if p > 0 {
                    assert(a[p] == at[p - 1]);
                    assert(b[p] == bt[p - 1]);
                }
            }
        }
    }
}

} // verus!
