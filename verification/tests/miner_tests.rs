use wiwo::event::{Event, Repository};
use wiwo::miner::{attach_repository, filter_non_fork, parse_git_log, RepoPager};

fn repo(name: &str, fork: bool) -> Repository {
    Repository {
        name: name.to_string(),
        html_url: String::new(),
        private: None,
        clone_url: String::new(),
        fork,
    }
}

#[test]
fn parses_one_commit_record() {
    let output = b"0123abcd\n2024-01-02T03:04:05+00:00\nfix the parser\nAlice";
    let events = parse_git_log(output, "work/proj");
    assert_eq!(events.len(), 1);
    assert_eq!(events[0].event_type, "Push");
    assert_eq!(events[0].created_at, 1704164645);
    assert_eq!(events[0].repo.name, "work/proj");
    assert!(!events[0].repo.fork);
}

#[test]
fn honours_the_timezone_offset() {
    let output = b"0123abcd\n2024-01-02T03:04:05+01:00\nsubject\nAlice";
    let events = parse_git_log(output, "p");
    assert_eq!(events.len(), 1);
    assert_eq!(events[0].created_at, 1704164645 - 3600);
}

#[test]
fn parses_several_records_in_order() {
    // entries follow one another separated by a single line break
    let output = b"aaaa\n2024-01-02T03:04:05+00:00\none\nAlice\n\
bbbb\n2024-01-01T00:00:00+00:00\ntwo\nBob";
    let events = parse_git_log(output, "p");
    assert_eq!(events.len(), 2);
    assert_eq!(events[0].created_at, 1704164645);
    assert_eq!(events[1].created_at, 1704067200);
}

#[test]
fn tolerates_an_empty_subject_line() {
    let output = b"aaaa\n2024-01-02T03:04:05+00:00\n\nAlice\n\
bbbb\n2024-01-01T00:00:00+00:00\ntwo\nBob";
    let events = parse_git_log(output, "p");
    assert_eq!(events.len(), 2);
    assert_eq!(events[0].created_at, 1704164645);
    assert_eq!(events[1].created_at, 1704067200);
}

#[test]
fn skips_a_trailing_incomplete_record() {
    let output = b"aaaa\n2024-01-02T03:04:05+00:00\none\nAlice\n\
bbbb\n2024-01-01T00:00:00+00:00";
    let events = parse_git_log(output, "p");
    assert_eq!(events.len(), 1);
    assert_eq!(events[0].created_at, 1704164645);
}

#[test]
fn skips_records_with_unreadable_dates() {
    let output = b"aaaa\nnot-a-date\none\nAlice\nbbbb\n2024-01-01T00:00:00+00:00\ntwo\nBob";
    let events = parse_git_log(output, "p");
    assert_eq!(events.len(), 1);
    assert_eq!(events[0].created_at, 1704067200);
}

#[test]
fn empty_output_yields_no_events() {
    let events = parse_git_log(b"", "p");
    assert!(events.is_empty());
}

#[test]
fn filter_drops_forks() {
    let repos = vec![repo("a/x", false), repo("a/fork", true), repo("a/y", false)];
    let kept = filter_non_fork(&repos);
    let names: Vec<String> = kept.iter().map(|r| r.name.clone()).collect();
    assert_eq!(names, vec!["a/x", "a/y"]);
}

#[test]
fn repo_pager_collects_until_empty_page() {
    let mut pager = RepoPager::new();
    assert_eq!(pager.next_page, 1);
    pager.step(vec![repo("a/x", false), repo("a/fork", true)]);
    assert!(!pager.done);
    assert_eq!(pager.next_page, 2);
    pager.step(vec![repo("a/y", false)]);
    assert_eq!(pager.next_page, 3);
    pager.step(vec![]);
    assert!(pager.done);
    let names: Vec<String> = pager.repos.iter().map(|r| r.name.clone()).collect();
    assert_eq!(names, vec!["a/x", "a/y"]);
}

#[test]
fn attach_repository_stamps_every_event() {
    let mined = vec![
        Event {
            event_type: "Push".to_string(),
            created_at: 7,
            repo: repo("tmp/path", false),
        },
        Event {
            event_type: "Push".to_string(),
            created_at: 9,
            repo: repo("tmp/path", false),
        },
    ];
    let owner = Repository {
        name: "alice/proj".to_string(),
        html_url: "https://example.test/alice/proj".to_string(),
        private: Some(false),
        clone_url: "https://example.test/alice/proj.git".to_string(),
        fork: false,
    };
    let stamped = attach_repository(&mined, &owner);
    assert_eq!(stamped.len(), 2);
    assert_eq!(stamped[0].repo, owner);
    assert_eq!(stamped[1].repo, owner);
    assert_eq!(stamped[0].created_at, 7);
    assert_eq!(stamped[1].created_at, 9);
}
