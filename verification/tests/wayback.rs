use forum_scraper::wayback::{
    display_url, is_kept_forum, job_for, needs_download, parse_job_list, pending_count,
    pending_indices, rename_plan, transform_file_list, DownloadState, FetchOutcome,
};

const HELLO_SHA: &str = "2cf24dba5fb0a30e26e83b2ac5b9e29e1b161e5c1fa7425e73043362938b9824";

fn owned_strings(parts: &[&str]) -> Vec<String> {
    parts.iter().map(|s| s.to_string()).collect()
}

#[test]
fn job_names_the_capture_and_the_hash() {
    let job = job_for(&owned_strings(&["hello", "text/html", "20040101", "20050101", "1", "1"]));
    assert_eq!(job[0], "http://web.archive.org/web/20050101id_/hello");
    assert_eq!(job[1], "hello");
    assert_eq!(job[2], HELLO_SHA);
}

#[test]
fn file_list_is_transformed() {
    let input = r#"[["hello","text/html","1","2","3","4"]]"#;
    let out = transform_file_list(input).unwrap();
    let expected = format!(r#"[["http://web.archive.org/web/2id_/hello","hello","{HELLO_SHA}"]]"#);
    assert_eq!(out, expected);
    assert_eq!(transform_file_list("[]").unwrap(), "[]");
    assert_eq!(transform_file_list(r#"[["a","b"]]"#), None);
    assert_eq!(transform_file_list("not json"), None);
}

#[test]
fn job_list_is_read() {
    let jobs = parse_job_list(r#"[["a","b","c"],["d","e","f"]]"#).unwrap();
    assert_eq!(jobs.len(), 2);
    assert_eq!(jobs[1][2], "f");
    assert!(parse_job_list(r#"[["a","b"]]"#).is_none());
    assert!(parse_job_list("{").is_none());
}

#[test]
fn forums_three_and_five_are_left_out() {
    assert!(is_kept_forum("http://volvo240.dk/forum.asp?f=4"));
    assert!(!is_kept_forum("http://volvo240.dk/forum.asp?f=5"));
    assert!(!is_kept_forum("http://volvo240.dk/forum.asp?f=3&id=1"));
    assert!(is_kept_forum("http://volvo240.dk/forum.asp?id=1&f=3"));
}

#[test]
fn pending_downloads() {
    let jobs = vec![
        owned_strings(&["u1", "http://volvo240.dk/a?f=4", "h1"]),
        owned_strings(&["u2", "http://volvo240.dk/a?f=5", "h2"]),
        owned_strings(&["u3", "http://volvo240.dk/b?f=4", "h3"]),
        owned_strings(&["u4", "http://volvo240.dk/c", "h4"]),
    ];
    let existing = owned_strings(&["h3"]);
    assert!(needs_download(&jobs[0], &existing));
    assert!(!needs_download(&jobs[1], &existing));
    assert!(!needs_download(&jobs[2], &existing));
    assert_eq!(pending_indices(&jobs, &existing), vec![0, 3]);
    assert_eq!(pending_count(&jobs, &existing), 2);
    assert_eq!(pending_count(&jobs, &Vec::new()), 3);
}

#[test]
fn addresses_are_shortened_for_display() {
    assert_eq!(display_url("http://www.volvo240.dk:80/forum.asp"), "/forum.asp");
    assert_eq!(display_url("http://www.volvo240.dk/forum.asp"), "/forum.asp");
    assert_eq!(display_url("http://volvo240.dk:80/x"), "/x");
    assert_eq!(display_url("http://volvo240.dk/x"), "/x");
    assert_eq!(display_url("https://volvo240.dk/x"), "https://volvo240.dk/x");
}

#[test]
fn answers_are_recorded() {
    let mut state = DownloadState::new();
    let act = state.record("h1".to_string(), FetchOutcome::Response { status: 200, body: vec![1, 2] });
    assert_eq!(act.pause_seconds, 5);
    assert_eq!(act.save, Some(("downloaded_files/h1".to_string(), vec![1, 2])));
    let act = state.record("h2".to_string(), FetchOutcome::Response { status: 404, body: vec![3] });
    assert_eq!(act.save, None);
    assert_eq!(act.pause_seconds, 5);
    let act = state.record("h3".to_string(), FetchOutcome::Failed { message: b"timeout".to_vec() });
    assert_eq!(act.save, None);
    assert_eq!(act.pause_seconds, 20);
    assert_eq!(state.failed_requests, 1);
    assert_eq!(
        state.failures,
        vec![("h2".to_string(), 404, vec![3]), ("h3".to_string(), 500, b"timeout".to_vec())]
    );
    let report = state.failure_report().unwrap();
    let parsed: serde_json::Value = serde_json::from_str(&report).unwrap();
    assert_eq!(parsed[1][0], "h3");
    assert_eq!(parsed[1][1], 500);
    assert!(report.contains('\n'));
}

#[test]
fn downloads_get_their_addresses_as_names() {
    let jobs = vec![
        owned_strings(&["u1", "http://volvo240.dk/forum.asp?f=4&id=1", "h1"]),
        owned_strings(&["u2", "http://volvo240.dk/forum.asp?f=5", "h2"]),
        owned_strings(&["u3", "http://volvo240.dk/æ ~x", "h3"]),
    ];
    let plan = rename_plan(&jobs);
    assert_eq!(
        plan,
        vec![
            (
                "downloaded_files/h1".to_string(),
                "renamed_files/http%3A%2F%2Fvolvo240.dk%2Fforum.asp%3Ff%3D4%26id%3D1".to_string(),
                "http://volvo240.dk/forum.asp?f=4&id=1".to_string()
            ),
            (
                "downloaded_files/h3".to_string(),
                "renamed_files/http%3A%2F%2Fvolvo240.dk%2F%C3%A6%20~x".to_string(),
                "http://volvo240.dk/æ ~x".to_string()
            ),
        ]
    );
}
