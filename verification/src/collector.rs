//! The multi-source collector: which endpoints a run walks, their
//! addresses, and how per-endpoint results are combined. A failed endpoint
//! contributes nothing rather than aborting the run.

use vstd::prelude::*;
use crate::event::Event;

verus! {

/// One logical event stream of a user.
#[derive(Debug, Clone, Copy, PartialEq, Eq, Structural)]
pub enum EndpointKind {
    /// The public events stream.
    PublicEvents,
    /// The stream including private events; reachable only with a
    /// credential.
    AllEvents,
}

/// The endpoints a run walks: the public stream always, the
/// private-inclusive stream only when a credential is present.
pub fn select_endpoints(has_credential: bool) -> (r: Vec<EndpointKind>)
    ensures
        r@ == if has_credential {
            seq![EndpointKind::PublicEvents, EndpointKind::AllEvents]
        } else {
            seq![EndpointKind::PublicEvents]
        },
{
    let mut v: Vec<EndpointKind> = Vec::new();
    v.push(EndpointKind::PublicEvents);
    if has_credential {
        v.push(EndpointKind::AllEvents);
        proof {
            assert(v@ =~= seq![EndpointKind::PublicEvents, EndpointKind::AllEvents]);
        }
    } else {
        proof {
            assert(v@ =~= seq![EndpointKind::PublicEvents]);
        }
    }
    v
}

/// The address of a user's event stream.
pub open spec fn spec_endpoint_url(kind: EndpointKind, username: Seq<char>) -> Seq<char> {
    match kind {
        EndpointKind::PublicEvents => "https://api.github.com/users/"@ + username
            + "/events/public"@,
        EndpointKind::AllEvents => "https://api.github.com/users/"@ + username + "/events"@,
    }
}

/// Build the address of a user's event stream.
pub fn endpoint_url(kind: &EndpointKind, username: &str) -> (r: String)
    ensures
        r@ == spec_endpoint_url(*kind, username@),
{
    let mut url = "https://api.github.com/users/".to_owned();
    url.append(username);
    match kind {
        EndpointKind::PublicEvents => url.append("/events/public"),
        EndpointKind::AllEvents => url.append("/events"),
    }
    url
}

/// Fold one endpoint's result into the collection: a failed source
/// contributes nothing; otherwise its events are appended in order.
pub fn append_source(all: &mut Vec<Event>, source_failed: bool, events: Vec<Event>)
    ensures
        final(all)@ == if source_failed {
            old(all)@
        } else {
            old(all)@ + events@
        },
{
    if !source_failed {
        let mut es = events;
        all.append(&mut es);
    }
}

/// The run cannot name a user to fetch for.
#[derive(Debug, Clone, Copy, PartialEq, Eq, Structural)]
pub enum UsernameError {
    /// Neither an explicit username nor a credential-derived identity.
    NoUsername,
}

/// The user whose timeline is fetched: an explicit argument wins, else the
/// identity behind the credential; with neither, the run is over before any
/// fetch.
pub fn resolve_username(arg: Option<String>, authenticated: Option<String>) -> (r: Result<
    String,
    UsernameError,
>)
    ensures
        r == (match arg {
            Some(name) => Ok::<String, UsernameError>(name),
            None => match authenticated {
                Some(name) => Ok::<String, UsernameError>(name),
                None => Err::<String, UsernameError>(UsernameError::NoUsername),
            },
        }),
{
    match arg {
        Some(name) => Ok(name),
        None => match authenticated {
            Some(name) => Ok(name),
            None => Err(UsernameError::NoUsername),
        },
    }
}

} // verus!
