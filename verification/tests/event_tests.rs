use wiwo::event::{Event, Repository};
use wiwo::render::{column_widths, pad_to_width};

fn ev(kind: &str, repo_name: &str) -> Event {
    Event {
        event_type: kind.to_string(),
        created_at: 0,
        repo: Repository {
            name: repo_name.to_string(),
            html_url: String::new(),
            private: None,
            clone_url: String::new(),
            fork: false,
        },
    }
}

#[test]
fn strips_event_suffix() {
    assert_eq!(ev("PushEvent", "a/x").formatted_type(), "Push");
    assert_eq!(ev("WatchEvent", "a/x").formatted_type(), "Watch");
}

#[test]
fn renames_long_labels() {
    assert_eq!(ev("PullRequestEvent", "a/x").formatted_type(), "PR");
    assert_eq!(ev("PullRequestReviewEvent", "a/x").formatted_type(), "PR Review");
    assert_eq!(ev("PullRequestReviewCommentEvent", "a/x").formatted_type(), "PR Comment");
    assert_eq!(ev("IssueCommentEvent", "a/x").formatted_type(), "Issue Cmt");
}

#[test]
fn unknown_labels_pass_through() {
    assert_eq!(ev("Push", "a/x").formatted_type(), "Push");
    assert_eq!(ev("Gollum", "a/x").formatted_type(), "Gollum");
    assert_eq!(ev("Ev", "a/x").formatted_type(), "Ev");
}

#[test]
fn supplied_web_address_is_kept() {
    let repo = Repository {
        name: "alice/proj".to_string(),
        html_url: "https://example.test/alice/proj".to_string(),
        private: None,
        clone_url: String::new(),
        fork: false,
    };
    assert_eq!(repo.html_url(), "https://example.test/alice/proj");
}

#[test]
fn missing_web_address_is_derived() {
    let repo = Repository {
        name: "alice/proj".to_string(),
        html_url: String::new(),
        private: None,
        clone_url: String::new(),
        fork: false,
    };
    assert_eq!(repo.html_url(), "https://github.com/alice/proj");
}

#[test]
fn pads_short_cells() {
    assert_eq!(pad_to_width("abc", 5), "abc  ");
    assert_eq!(pad_to_width("", 3), "   ");
}

#[test]
fn wide_cells_pass_through() {
    assert_eq!(pad_to_width("abcdef", 3), "abcdef");
    assert_eq!(pad_to_width("abc", 3), "abc");
}

#[test]
fn column_widths_have_a_floor_of_ten() {
    let events: Vec<Event> = vec![];
    assert_eq!(column_widths(&events), (10, 10));
    let events = vec![ev("PushEvent", "a/x")];
    // display label "Push" and identifier "a/x" are narrower than the floor
    assert_eq!(column_widths(&events), (10, 10));
}

#[test]
fn column_widths_follow_the_widest_entry() {
    let events = vec![
        ev("PushEvent", "a/x"),
        ev("SomeVeryLongLabel", "alice/some-long-name"),
    ];
    // "SomeVeryLongLabel" has no suffix to strip and is 17 wide
    assert_eq!(column_widths(&events), (17, 20));
}
