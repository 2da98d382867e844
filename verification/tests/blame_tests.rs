//! Scenarios for the blame engine: porcelain parsing and bulk fan-out.

use gitfleet::blame::{bulk_blame_collect, check_contiguous, parse_blame_porcelain, BlameLine};

const README_PORCELAIN: &str = "\
1111111111111111111111111111111111111111 1 1 2\n\
author Alice\n\
author-mail <alice@example.com>\n\
author-time 1700000000\n\
filename README.md\n\
\t# Title\n\
1111111111111111111111111111111111111111 2 2\n\
author Alice\n\
author-mail <alice@example.com>\n\
author-time 1700000000\n\
filename README.md\n\
\t\n\
2222222222222222222222222222222222222222 1 3 1\n\
author Bob\n\
author-mail <bob@example.com>\n\
author-time 1700000500\n\
filename README.md\n\
\tSecond paragraph.\n";

#[test]
fn parses_a_three_line_file() {
    let lines = parse_blame_porcelain(README_PORCELAIN).expect("well-formed porcelain");
    assert_eq!(lines.len(), 3);
    for (i, l) in lines.iter().enumerate() {
        assert_eq!(l.final_line_no as usize, i + 1);
    }
    assert_eq!(lines[0].commit_id, "1111111111111111111111111111111111111111");
    assert_eq!(lines[0].author_name, "Alice");
    assert_eq!(lines[0].author_email, "alice@example.com");
    assert_eq!(lines[0].orig_line_no, 1);
    assert_eq!(lines[0].line_content, "# Title");
    assert_eq!(lines[1].line_content, "");
    assert_eq!(lines[2].commit_id, "2222222222222222222222222222222222222222");
    assert_eq!(lines[2].author_name, "Bob");
    assert_eq!(lines[2].orig_line_no, 1);
    assert_eq!(lines[2].line_content, "Second paragraph.");
}

#[test]
fn empty_input_yields_no_lines() {
    let lines = parse_blame_porcelain("").expect("empty input is an empty file");
    assert!(lines.is_empty());
}

#[test]
fn content_without_header_is_an_error() {
    assert!(parse_blame_porcelain("\tstray content\n").is_err());
}

#[test]
fn malformed_header_is_an_error() {
    assert!(parse_blame_porcelain("not a header line\n\tcontent\n").is_err());
}

#[test]
fn out_of_order_lines_are_an_error() {
    let text = "\
1111111111111111111111111111111111111111 1 2 1\n\
author Alice\n\
author-mail <alice@example.com>\n\
\tfirst\n";
    assert!(parse_blame_porcelain(text).is_err());
}

#[test]
fn truncated_record_is_an_error() {
    let text = "\
1111111111111111111111111111111111111111 1 1 1\n\
author Alice\n";
    assert!(parse_blame_porcelain(text).is_err());
}

#[test]
fn bulk_blame_isolates_a_missing_file() {
    let files = vec!["README.md".to_string(), "no-such-file.txt".to_string()];
    let raws = vec![
        Ok(README_PORCELAIN.to_string()),
        Err("no such path 'no-such-file.txt' in HEAD".to_string()),
    ];
    let results = bulk_blame_collect(&files, &raws);
    assert_eq!(results.len(), 2);
    assert_eq!(results[0].0, "README.md");
    let lines = results[0].1.as_ref().expect("readme blame succeeds");
    assert_eq!(lines.len(), 3);
    let mut last = 0u32;
    for l in lines {
        assert_eq!(l.final_line_no, last + 1);
        last = l.final_line_no;
    }
    assert_eq!(results[1].0, "no-such-file.txt");
    let err = results[1].1.as_ref().expect_err("missing file errors");
    assert!(!err.is_empty());
}

#[test]
fn contiguity_check_matches_the_numbers() {
    let ok = parse_blame_porcelain(README_PORCELAIN).expect("well-formed porcelain");
    assert!(check_contiguous(&ok));
    let broken = vec![BlameLine {
        commit_id: "3".repeat(40),
        author_name: "A".to_string(),
        author_email: "a@example.com".to_string(),
        orig_line_no: 1,
        final_line_no: 2,
        line_content: "x".to_string(),
    }];
    assert!(!check_contiguous(&broken));
}
