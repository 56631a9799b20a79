//! The event data model: a timestamped activity record attributed to a
//! repository. Instants are carried as seconds since the Unix epoch.

use vstd::prelude::*;
use crate::strutil::str_eq;

verus! {

/// A repository referenced by an event. `name` is the `owner/name`
/// identifier; `html_url` and `clone_url` may be empty when the source did
/// not supply them.
#[derive(Debug, PartialEq)]
pub struct Repository {
    pub name: String,
    pub html_url: String,
    pub private: Option<bool>,
    pub clone_url: String,
    pub fork: bool,
}

/// One timestamped activity record. `event_type` is the raw category label
/// from the source (`PushEvent`, ...) or the synthetic label `Push` for a
/// mined commit; `created_at` is in seconds since the Unix epoch.
#[derive(Debug, PartialEq)]
pub struct Event {
    pub event_type: String,
    pub created_at: i64,
    pub repo: Repository,
}

/// The web address of a repository whose source supplied none: the host
/// followed by the identifier.
pub open spec fn spec_derived_url(name: Seq<char>) -> Seq<char> {
    "https://github.com/"@ + name
}

impl Repository {
    /// What `html_url()` returns: the address from the source when present,
    /// otherwise one derived from the identifier.
    pub open spec fn spec_html_url(self) -> Seq<char> {
        if self.html_url@.len() > 0 {
            self.html_url@
        } else {
            spec_derived_url(self.name@)
        }
    }

    /// The repository's web address, derived from its identifier when the
    /// source supplied none.
    pub fn html_url(&self) -> (r: String)
        ensures
            r@ == self.spec_html_url(),
    {
        if !self.html_url.as_str().is_empty() {
            self.html_url.clone()
        } else {
            let mut url = "https://github.com/".to_owned();
            url.append(self.name.as_str());
            url
        }
    }

    /// A copy of this repository record, equal to the original.
    pub fn duplicate(&self) -> (r: Repository)
        ensures
            r == *self,
    {
        Repository {
            name: self.name.clone(),
            html_url: self.html_url.clone(),
            private: self.private,
            clone_url: self.clone_url.clone(),
            fork: self.fork,
        }
    }
}

/// The category label with a trailing `Event` suffix removed, when present.
pub open spec fn strip_event_suffix(k: Seq<char>) -> Seq<char> {
    if k.len() >= 5 && k.subrange(k.len() - 5, k.len() as int) == "Event"@ {
        k.take(k.len() - 5)
    } else {
        k
    }
}

/// The display label of a raw category: the `Event` suffix is stripped and
/// a few long labels are renamed; unknown categories pass through.
pub open spec fn display_kind(k: Seq<char>) -> Seq<char> {
    let s = strip_event_suffix(k);
    if s == "PullRequest"@ {
        "PR"@
    } else if s == "PullRequestReview"@ {
        "PR Review"@
    } else if s == "PullRequestReviewComment"@ {
        "PR Comment"@
    } else if s == "IssueComment"@ {
        "Issue Cmt"@
    } else {
        s
    }
}

impl Event {
    /// The display label of this event's category.
    pub fn formatted_type(&self) -> (r: String)
        ensures
            r@ == display_kind(self.event_type@),
    {
        let n = self.event_type.as_str().unicode_len();
        let stripped: &str = if n >= 5 {
            let suffix = self.event_type.as_str().substring_char(n - 5, n);
            if str_eq(suffix, "Event") {
                let head = self.event_type.as_str().substring_char(0, n - 5);
                proof {
                    assert(head@ =~= strip_event_suffix(self.event_type@));
                }
                head
            } else {
                self.event_type.as_str()
            }
        } else {
            self.event_type.as_str()
        };
        proof {
            assert(stripped@ == strip_event_suffix(self.event_type@));
        }
        if str_eq(stripped, "PullRequest") {
            "PR".to_owned()
        } else if str_eq(stripped, "PullRequestReview") {
            "PR Review".to_owned()
        } else if str_eq(stripped, "PullRequestReviewComment") {
            "PR Comment".to_owned()
        } else if str_eq(stripped, "IssueComment") {
            "Issue Cmt".to_owned()
        } else {
            stripped.to_owned()
        }
    }

    /// A copy of this event, equal to the original.
    pub fn duplicate(&self) -> (r: Event)
        ensures
            r == *self,
    {
        Event {
            event_type: self.event_type.clone(),
            created_at: self.created_at,
            repo: self.repo.duplicate(),
        }
    }
}

} // verus!
