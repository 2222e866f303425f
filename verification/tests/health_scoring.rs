use space_cmd::health::{
    api_score_details, assemble_repo_health, compose_health_score, discover_repos, has_ci_recipe,
    repo_score, ApiSignals, RepoHealthOptions, RepoProbe,
};
use space_cmd::source::check_schema_version;

fn clean_probe() -> RepoProbe {
    RepoProbe {
        is_git_repo: true,
        is_clean: Some(true),
        branch: Some("main".to_string()),
        last_commit_age_s: Some(86400),
        ci_ok: None,
        ci_duration_ms: None,
    }
}

#[test]
fn healthy_system_scores_full_marks() {
    let sig = ApiSignals {
        api_ok: true,
        api_err: None,
        ledger_freshness_s: Some(10),
        spawns_freshness_s: Some(5),
    };
    let repo = assemble_repo_health("/tmp/repo".to_string(), &clean_probe(), false);
    let score = compose_health_score("http://localhost:8228".to_string(), Some(3), sig, vec![repo], false);
    assert_eq!(score.score, 100);
    assert_eq!(score.api_score, 100);
    assert_eq!(score.repos_score, 100);
    assert!(score.details.is_empty());
    assert!(score.repos[0].details.is_empty());
}

#[test]
fn unreachable_api_drops_to_twenty_with_evidence() {
    let sig = ApiSignals {
        api_ok: false,
        api_err: Some("connection refused".to_string()),
        ledger_freshness_s: None,
        spawns_freshness_s: None,
    };
    let (score, details) = api_score_details(&sig);
    assert_eq!(score, 100 - 60 - 10 - 10);
    assert!(details.len() >= 3);
    assert_eq!(details.len(), 3);
    assert_eq!(details[0], "API health check failed (or DB disconnected): connection refused");
    assert_eq!(details[1], "Ledger freshness unknown (no events or parse failed).");
    assert_eq!(details[2], "Spawns freshness unknown (no spawns or parse failed).");
}

#[test]
fn stale_ledger_alone_costs_ten() {
    let sig = ApiSignals {
        api_ok: true,
        api_err: None,
        ledger_freshness_s: Some(7200),
        spawns_freshness_s: Some(5),
    };
    let (score, details) = api_score_details(&sig);
    assert_eq!(score, 90);
    assert_eq!(details.len(), 1);
    assert_eq!(details[0], "Ledger stale: last event 7200s ago.");
}

#[test]
fn stale_spawns_alone_costs_ten() {
    let sig = ApiSignals {
        api_ok: true,
        api_err: None,
        ledger_freshness_s: Some(5),
        spawns_freshness_s: Some(7200),
    };
    let (score, details) = api_score_details(&sig);
    assert_eq!(score, 90);
    assert_eq!(details.len(), 1);
    assert_eq!(details[0], "Spawns stale: last activity 7200s ago.");
}

#[test]
fn unknown_spawn_freshness_alone_costs_ten() {
    let sig = ApiSignals {
        api_ok: true,
        api_err: None,
        ledger_freshness_s: Some(5),
        spawns_freshness_s: None,
    };
    let (score, details) = api_score_details(&sig);
    assert_eq!(score, 90);
    assert_eq!(details.len(), 1);
}

#[test]
fn non_repo_yields_minimal_row_regardless_of_ci() {
    let probe = RepoProbe {
        is_git_repo: false,
        is_clean: Some(false),
        branch: Some("main".to_string()),
        last_commit_age_s: Some(10_000_000),
        ci_ok: Some(false),
        ci_duration_ms: Some(5),
    };
    for run_ci in [false, true] {
        let row = assemble_repo_health("/x".to_string(), &probe, run_ci);
        assert!(!row.is_git_repo);
        assert_eq!(row.is_clean, None);
        assert_eq!(row.branch, None);
        assert_eq!(row.last_commit_age_s, None);
        assert_eq!(row.ci_ok, None);
        assert_eq!(row.ci_duration_ms, None);
        assert_eq!(row.details, vec!["Not a git repository.".to_string()]);
        let (score, details) = repo_score(&row, run_ci);
        assert_eq!(score, 90);
        assert_eq!(details, vec!["Not a git repo.".to_string()]);
    }
}

#[test]
fn ci_failure_costs_thirty() {
    let probe = RepoProbe {
        is_git_repo: true,
        is_clean: Some(true),
        branch: Some("main".to_string()),
        last_commit_age_s: Some(3600),
        ci_ok: Some(false),
        ci_duration_ms: Some(1500),
    };
    let row = assemble_repo_health("/repo".to_string(), &probe, true);
    let (score, _) = repo_score(&row, true);
    assert_eq!(score, 70);
    let sig = ApiSignals {
        api_ok: true,
        api_err: None,
        ledger_freshness_s: Some(1),
        spawns_freshness_s: Some(1),
    };
    let hs = compose_health_score("u".to_string(), None, sig, vec![row], true);
    assert!(hs.repos_score <= 70);
    assert_eq!(hs.repos_score, 70);
    assert_eq!(hs.score, 70);
    assert_eq!(hs.details, vec!["Repo degraded: /repo (70/100)".to_string()]);
}

#[test]
fn missing_ci_recipe_costs_five() {
    let row = assemble_repo_health("/repo".to_string(), &clean_probe(), true);
    let (score, details) = repo_score(&row, true);
    assert_eq!(score, 95);
    assert_eq!(details, vec!["No `just ci` recipe.".to_string()]);
}

#[test]
fn dirty_and_stale_deductions_accumulate() {
    let probe = RepoProbe {
        is_git_repo: true,
        is_clean: Some(false),
        branch: Some("dev".to_string()),
        last_commit_age_s: Some(86400 * 9),
        ci_ok: None,
        ci_duration_ms: None,
    };
    let row = assemble_repo_health("/repo".to_string(), &probe, false);
    assert_eq!(
        row.details,
        vec![
            "Working tree dirty.".to_string(),
            "Repo stale: last commit 9 days ago.".to_string()
        ]
    );
    let (score, details) = repo_score(&row, false);
    assert_eq!(score, 85);
    assert_eq!(
        details,
        vec!["Dirty working tree.".to_string(), "No commits in 7d.".to_string()]
    );
}

#[test]
fn overall_score_is_weakest_link() {
    let sig = ApiSignals {
        api_ok: true,
        api_err: None,
        ledger_freshness_s: Some(7200),
        spawns_freshness_s: Some(5),
    };
    let good = assemble_repo_health("/a".to_string(), &clean_probe(), false);
    let bad_probe = RepoProbe { is_git_repo: false, ..clean_probe() };
    let bad = assemble_repo_health("/b".to_string(), &bad_probe, false);
    let hs = compose_health_score("u".to_string(), None, sig, vec![good, bad], false);
    assert_eq!(hs.api_score, 90);
    assert_eq!(hs.repos_score, 90);
    assert_eq!(hs.score, 90);
}

#[test]
fn repos_score_ignores_listing_order() {
    let sig = ApiSignals {
        api_ok: true,
        api_err: None,
        ledger_freshness_s: Some(1),
        spawns_freshness_s: Some(1),
    };
    let mk = |git: bool, clean: bool| {
        let probe = RepoProbe {
            is_git_repo: git,
            is_clean: Some(clean),
            branch: None,
            last_commit_age_s: Some(100),
            ci_ok: None,
            ci_duration_ms: None,
        };
        assemble_repo_health("/r".to_string(), &probe, false)
    };
    let forward = compose_health_score(
        "u".to_string(),
        None,
        sig.clone(),
        vec![mk(true, true), mk(true, false), mk(false, true)],
        false,
    );
    let backward = compose_health_score(
        "u".to_string(),
        None,
        sig,
        vec![mk(false, true), mk(true, false), mk(true, true)],
        false,
    );
    assert_eq!(forward.repos_score, backward.repos_score);
    assert_eq!(forward.score, backward.score);
    assert_eq!(forward.repos_score, 90);
}

#[test]
fn discovery_is_sorted_deduplicated_and_idempotent() {
    let explicit = vec!["/b".to_string(), "/a".to_string(), "/b".to_string()];
    let scanned = vec!["/c".to_string(), "/a".to_string()];
    let once = discover_repos(&explicit, &scanned, "/cwd".to_string());
    assert_eq!(once, vec!["/a".to_string(), "/b".to_string(), "/c".to_string()]);
    let again = discover_repos(&explicit, &scanned, "/cwd".to_string());
    assert_eq!(once, again);
    let permuted_explicit = vec!["/a".to_string(), "/b".to_string()];
    let permuted_scanned = vec!["/a".to_string(), "/c".to_string(), "/b".to_string()];
    let other_order = discover_repos(&permuted_scanned, &permuted_explicit, "/cwd".to_string());
    assert_eq!(once, other_order);
}

#[test]
fn discovery_falls_back_to_working_directory() {
    let none: Vec<String> = Vec::new();
    let r = discover_repos(&none, &none, "/cwd".to_string());
    assert_eq!(r, vec!["/cwd".to_string()]);
}

#[test]
fn default_options_run_nothing_for_two_minutes() {
    let o = RepoHealthOptions::default();
    assert!(o.repos.is_empty());
    assert!(o.repos_dir.is_none());
    assert!(!o.run_ci);
    assert_eq!(o.timeout_s, 120);
}

#[test]
fn ci_recipe_is_found_by_its_line() {
    assert!(has_ci_recipe("build:\n\tcargo build\nci:\n\tcargo test\n"));
    assert!(has_ci_recipe("ci: build lint\n\tcargo test\n"));
    assert!(!has_ci_recipe("build:\n\tcargo build\n"));
    assert!(!has_ci_recipe("cider:\n\tpress apples\n"));
    assert!(!has_ci_recipe(""));
}

#[test]
fn schema_gate_accepts_current_and_refuses_old() {
    assert!(check_schema_version(1).is_ok());
    assert!(check_schema_version(5).is_ok());
    let err = check_schema_version(0).unwrap_err();
    assert_eq!(err, "space-os schema v1 required, found v0. Run `space upgrade`");
}
