//! Scenarios for the commit extractor: history parsing, numstat sums, and
//! the merge flag.

use gitfleet::commits::{
    build_record, parse_commits, parse_numstat_line, parse_tz, repo_name_from_path, NumstatEntry,
};

const LINEAR_HISTORY: &str = "\
C c3c3c3 c2c2c2\n\
N Carol\n\
E carol@example.com\n\
T 1700000300 +0000\n\
n Carol\n\
e carol@example.com\n\
t 1700000300 +0000\n\
M remove a line\n\
0\t1\tnotes.txt\n\
\n\
C c2c2c2 c1c1c1\n\
N Bob\n\
E bob@example.com\n\
T 1700000200 +0130\n\
n Bob\n\
e bob@example.com\n\
t 1700000200 +0130\n\
M add two lines\n\
2\t0\tnotes.txt\n\
\n\
C c1c1c1\n\
N Alice\n\
E alice@example.com\n\
T 1700000100 -0500\n\
n Alice\n\
e alice@example.com\n\
t 1700000100 -0500\n\
M initial commit\n\
3\t0\tnotes.txt\n";

#[test]
fn linear_three_commit_history() {
    let records = parse_commits(LINEAR_HISTORY, "fixture").expect("well-formed history");
    assert_eq!(records.len(), 3);

    let c = &records[0];
    assert_eq!(c.sha, "c3c3c3");
    assert_eq!(c.repo_name, "fixture");
    assert_eq!(c.message, "remove a line");
    assert_eq!(c.additions, 0);
    assert_eq!(c.deletions, 1);
    assert!(!c.is_merge);
    assert_eq!(c.author_timestamp, 1_700_000_300);
    assert_eq!(c.author_offset, 0);

    let b = &records[1];
    assert_eq!(b.sha, "c2c2c2");
    assert_eq!(b.additions, 2);
    assert_eq!(b.deletions, 0);
    assert!(!b.is_merge);
    assert_eq!(b.author_offset, 90);

    let a = &records[2];
    assert_eq!(a.sha, "c1c1c1");
    assert_eq!(a.author_name, "Alice");
    assert_eq!(a.author_email, "alice@example.com");
    assert_eq!(a.additions, 3);
    assert_eq!(a.deletions, 0);
    assert!(!a.is_merge);
    assert_eq!(a.author_offset, -300);
}

#[test]
fn merge_commit_is_flagged_and_counted_against_first_parent() {
    let history = "\
C m1m1m1 b1b1b1 c1c1c1\n\
N Merger\n\
E merger@example.com\n\
T 1700000900 +0000\n\
n Merger\n\
e merger@example.com\n\
t 1700000900 +0000\n\
M merge branch\n\
4\t1\tfile.txt\n";
    let records = parse_commits(history, "fixture").expect("well-formed history");
    assert_eq!(records.len(), 1);
    let m = &records[0];
    assert!(m.is_merge);
    assert_eq!(m.additions, 4);
    assert_eq!(m.deletions, 1);
}

#[test]
fn binary_entries_count_zero() {
    let history = "\
C d1d1d1\n\
N Dana\n\
E dana@example.com\n\
T 1700001000 +0000\n\
n Dana\n\
e dana@example.com\n\
t 1700001000 +0000\n\
M add a picture\n\
-\t-\tlogo.png\n\
5\t2\treadme.md\n";
    let records = parse_commits(history, "fixture").expect("well-formed history");
    assert_eq!(records.len(), 1);
    assert_eq!(records[0].additions, 5);
    assert_eq!(records[0].deletions, 2);
}

#[test]
fn malformed_history_is_an_error() {
    assert!(parse_commits("what is this\n", "fixture").is_err());
    assert!(parse_commits("C c1c1c1\nN Alice\n", "fixture").is_err());
    let bad_time = "\
C c1c1c1\n\
N Alice\n\
E a@example.com\n\
T yesterday +0000\n\
n Alice\n\
e a@example.com\n\
t 1700000100 +0000\n\
M hello\n";
    assert!(parse_commits(bad_time, "fixture").is_err());
}

#[test]
fn tz_fields_parse_to_minutes() {
    assert_eq!(parse_tz("+0000"), Some(0));
    assert_eq!(parse_tz("+0200"), Some(120));
    assert_eq!(parse_tz("-0530"), Some(-330));
    assert_eq!(parse_tz("+1400"), Some(840));
    assert_eq!(parse_tz("0200"), None);
    assert_eq!(parse_tz("+02:0"), None);
    assert_eq!(parse_tz(""), None);
}

#[test]
fn numstat_lines_parse() {
    let e = parse_numstat_line("3\t0\tsrc/lib.rs").expect("plain entry");
    assert_eq!(e.additions, Some(3));
    assert_eq!(e.deletions, Some(0));
    assert_eq!(e.path, "src/lib.rs");
    let b = parse_numstat_line("-\t-\tassets/logo.png").expect("binary entry");
    assert_eq!(b.additions, None);
    assert_eq!(b.deletions, None);
    assert!(parse_numstat_line("3 0 src/lib.rs").is_none());
    assert!(parse_numstat_line("x\t0\tsrc/lib.rs").is_none());
    assert!(parse_numstat_line("3\t0\t").is_none());
}

#[test]
fn build_record_sums_its_block() {
    let entries = vec![
        NumstatEntry {
            additions: Some(3),
            deletions: Some(1),
            path: "a.txt".to_string(),
        },
        NumstatEntry {
            additions: None,
            deletions: None,
            path: "b.png".to_string(),
        },
        NumstatEntry {
            additions: Some(4),
            deletions: Some(2),
            path: "c.txt".to_string(),
        },
    ];
    let c = build_record(
        "e1e1e1".to_string(),
        "fixture".to_string(),
        "subject".to_string(),
        "A".to_string(),
        "a@example.com".to_string(),
        1_700_000_000,
        60,
        "C".to_string(),
        "c@example.com".to_string(),
        1_700_000_100,
        -60,
        1,
        &entries,
    );
    assert_eq!(c.additions, 7);
    assert_eq!(c.deletions, 3);
    assert!(!c.is_merge);
}

#[test]
fn repo_names_come_from_the_last_path_component() {
    assert_eq!(repo_name_from_path("/tmp/work/fleet-repo.git"), "fleet-repo");
    assert_eq!(repo_name_from_path("/tmp/work/fleet-repo"), "fleet-repo");
    assert_eq!(repo_name_from_path("fleet-repo.git"), "fleet-repo");
    assert_eq!(repo_name_from_path("fleet-repo"), "fleet-repo");
    assert_eq!(repo_name_from_path(".git"), "");
}
