//! Scenarios for the clone orchestrator: the task table, the status
//! lifecycle, and cleanup.

use gitfleet::manager::{CleanupDecision, RepoManager};
use gitfleet::tasks::CloneStatus;
use gitfleet::token::RecordOutcome;

fn find_status(m: &RepoManager, url: &str) -> (CloneStatus, Option<String>) {
    for t in m.snapshot_tasks() {
        if t.url == url {
            return (t.status, t.temp_dir);
        }
    }
    panic!("no task for {}", url);
}

#[test]
fn two_repos_success_path() {
    let urls = vec![
        "https://example/a".to_string(),
        "https://example/b".to_string(),
    ];
    let mut m = RepoManager::new(urls, "user".to_string(), "secret".to_string());
    assert_eq!(m.task_count(), 2);
    assert!(m.start_task("https://example/a", "/tmp/wd-a".to_string()));
    assert!(m.start_task("https://example/b", "/tmp/wd-b".to_string()));
    assert!(m.report_progress("https://example/a", 100));
    assert!(m.complete_task("https://example/a"));
    assert!(m.complete_task("https://example/b"));
    let snap = m.snapshot_tasks();
    assert_eq!(snap.len(), 2);
    for t in snap {
        assert_eq!(t.status, CloneStatus::Completed);
        assert!(t.temp_dir.is_some());
    }
}

#[test]
fn progress_is_monotone_and_ends_completed() {
    let urls = vec!["https://example/big".to_string()];
    let mut m = RepoManager::new(urls, "user".to_string(), "secret".to_string());
    assert!(m.start_task("https://example/big", "/tmp/wd-big".to_string()));
    let samples: [u8; 6] = [10, 5, 42, 42, 90, 100];
    let mut last = 0u8;
    for s in samples {
        assert!(m.report_progress("https://example/big", s));
        match find_status(&m, "https://example/big").0 {
            CloneStatus::Cloning(p) => {
                assert!(p >= last, "progress dropped from {} to {}", last, p);
                assert!(p <= 100);
                last = p;
            }
            other => panic!("expected cloning, got {:?}", other),
        }
    }
    assert_eq!(last, 100);
    assert!(m.complete_task("https://example/big"));
    assert_eq!(
        find_status(&m, "https://example/big").0,
        CloneStatus::Completed
    );
}

#[test]
fn progress_samples_above_hundred_are_clamped() {
    let urls = vec!["https://example/x".to_string()];
    let mut m = RepoManager::new(urls, "u".to_string(), "s".to_string());
    assert!(m.start_task("https://example/x", "/tmp/wd-x".to_string()));
    assert!(m.report_progress("https://example/x", 250));
    assert_eq!(
        find_status(&m, "https://example/x").0,
        CloneStatus::Cloning(100)
    );
}

#[test]
fn one_bad_url() {
    let urls = vec![
        "https://example/good".to_string(),
        "https://example/does-not-exist".to_string(),
    ];
    let mut m = RepoManager::new(urls, "user".to_string(), "secret".to_string());
    assert!(m.start_task("https://example/good", "/tmp/wd-good".to_string()));
    assert!(m.start_task("https://example/does-not-exist", "/tmp/wd-bad".to_string()));
    assert!(m.complete_task("https://example/good"));
    assert!(m.fail_task(
        "https://example/does-not-exist",
        "remote: repository not found".to_string()
    ));
    assert_eq!(
        find_status(&m, "https://example/good").0,
        CloneStatus::Completed
    );
    match find_status(&m, "https://example/does-not-exist").0 {
        CloneStatus::Failed(msg) => assert!(!msg.is_empty()),
        other => panic!("expected failed, got {:?}", other),
    }
}

#[test]
fn duplicate_urls_are_coalesced() {
    let urls = vec![
        "https://example/a".to_string(),
        "https://example/a".to_string(),
        "https://example/b".to_string(),
        "https://example/a".to_string(),
    ];
    let m = RepoManager::new(urls, "user".to_string(), "secret".to_string());
    assert_eq!(m.task_count(), 2);
    let snap = m.snapshot_tasks();
    let count_a = snap.iter().filter(|t| t.url == "https://example/a").count();
    assert_eq!(count_a, 1);
    for t in snap {
        assert_eq!(t.status, CloneStatus::Queued);
        assert!(t.temp_dir.is_none());
    }
}

#[test]
fn queued_tasks_do_not_take_progress() {
    let urls = vec!["https://example/a".to_string()];
    let mut m = RepoManager::new(urls, "user".to_string(), "secret".to_string());
    assert!(!m.report_progress("https://example/a", 50));
    assert!(!m.complete_task("https://example/a"));
    assert!(!m.start_task("https://example/other", "/tmp/wd".to_string()));
    assert_eq!(
        find_status(&m, "https://example/a").0,
        CloneStatus::Queued
    );
}

#[test]
fn cleanup_is_idempotent() {
    let urls = vec!["https://example/a".to_string()];
    let mut m = RepoManager::new(urls, "user".to_string(), "secret".to_string());
    assert!(m.start_task("https://example/a", "/tmp/wd-a".to_string()));
    assert_eq!(
        m.cleanup_decide("https://example/a"),
        CleanupDecision::Active
    );
    assert!(m.complete_task("https://example/a"));
    assert_eq!(
        m.cleanup_decide("https://example/a"),
        CleanupDecision::Remove("/tmp/wd-a".to_string())
    );
    assert!(m.clear_task_dir("https://example/a"));
    assert_eq!(
        m.cleanup_decide("https://example/a"),
        CleanupDecision::Nothing
    );
    assert_eq!(
        m.cleanup_decide("https://example/a"),
        CleanupDecision::Nothing
    );
    assert_eq!(
        m.cleanup_decide("https://example/missing"),
        CleanupDecision::Unknown
    );
    assert_eq!(
        find_status(&m, "https://example/a").0,
        CloneStatus::Completed
    );
}

#[test]
fn active_task_keeps_its_directory() {
    let urls = vec!["https://example/a".to_string()];
    let mut m = RepoManager::new(urls, "user".to_string(), "secret".to_string());
    assert!(m.start_task("https://example/a", "/tmp/wd-a".to_string()));
    assert!(!m.clear_task_dir("https://example/a"));
    assert_eq!(
        find_status(&m, "https://example/a").1,
        Some("/tmp/wd-a".to_string())
    );
}

#[test]
fn never_started_task_needs_no_cleanup() {
    let urls = vec!["https://example/a".to_string()];
    let m = RepoManager::new(urls, "user".to_string(), "secret".to_string());
    assert_eq!(
        m.cleanup_decide("https://example/a"),
        CleanupDecision::Nothing
    );
}

#[test]
fn manager_carries_the_credential_pool() {
    let urls = vec!["https://example/a".to_string()];
    let mut m = RepoManager::new(urls, "octocat".to_string(), "tok3n-abc".to_string());
    let (i, exhausted) = m.select_token(100).expect("one credential seeded");
    let e = m.token_at(i);
    assert_eq!(e.identifier, "octocat");
    assert_eq!(e.secret, "tok3n-abc");
    assert!(!exhausted);
    assert!(m.record_token(
        "octocat",
        RecordOutcome::Observed {
            limit: 5000,
            remaining: 4999,
            reset_time: 3600,
            used: 1,
        },
        100,
    ));
    let e = m.token_at(0);
    assert_eq!(e.remaining, 4999);
    assert!(!m.record_token("nobody", RecordOutcome::UsedOk, 100));
}

#[test]
fn worker_limit_rules() {
    assert_eq!(RepoManager::worker_limit(0, 4), 0);
    assert_eq!(RepoManager::worker_limit(10, 4), 4);
    assert_eq!(RepoManager::worker_limit(3, 8), 3);
    assert_eq!(RepoManager::worker_limit(2, 0), 1);
    assert_eq!(RepoManager::worker_limit(0, 0), 0);
}
