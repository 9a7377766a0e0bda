//! Decisions of the Wi-Fi supervisor, which polls the station and keeps it
//! started and connected.
use vstd::prelude::*;

verus! {

/// What the supervisor does after one poll.
#[derive(Clone, Copy, PartialEq, Eq, Structural, Debug)]
pub enum LinkAction {
    /// The station is not running: start it.
    Start,
    /// The station runs but has no link: connect.
    Connect,
    /// The link is up: nothing to do.
    Hold,
    /// A status query failed: report it and poll again.
    Report,
}

/// Pause after each poll, in milliseconds.
pub const POLL_INTERVAL_MS: u32 = 100;

/// Extra pause while the link is up, in milliseconds.
pub const CONNECTED_INTERVAL_MS: u32 = 1000;

/// The action for a poll whose queries answered `started` and `connected`
/// (`None` when a query failed); `connected` matters only for a started station.
pub open spec fn link_action(started: Option<bool>, connected: Option<bool>) -> LinkAction {
    match started {
        None => LinkAction::Report,
        Some(false) => LinkAction::Start,
        Some(true) => match connected {
            None => LinkAction::Report,
            Some(false) => LinkAction::Connect,
            Some(true) => LinkAction::Hold,
        },
    }
}

pub fn next_link_action(started: Option<bool>, connected: Option<bool>) -> (r: LinkAction)
    ensures
        r == link_action(started, connected),
{
    match started {
        None => LinkAction::Report,
        Some(false) => LinkAction::Start,
        Some(true) => match connected {
            None => LinkAction::Report,
            Some(false) => LinkAction::Connect,
            Some(true) => LinkAction::Hold,
        },
    }
}

/// How long to wait before the next poll after `action`.
pub fn poll_delay_ms(action: LinkAction) -> (r: u32)
    ensures
        r == if action == LinkAction::Hold {
            CONNECTED_INTERVAL_MS + POLL_INTERVAL_MS
        } else {
            POLL_INTERVAL_MS as int
        },
{
    match action {
        LinkAction::Hold => CONNECTED_INTERVAL_MS + POLL_INTERVAL_MS,
        _ => POLL_INTERVAL_MS,
    }
}

} // verus!
