use vstd::prelude::*;
use vstd::string::*;

verus! {

/// The message that tells open pages to reload.
pub const RELOAD_MESSAGE: &'static str = "RELOAD";

/// What the file watcher reports.
#[derive(Debug)]
pub enum WatchEvent {
    /// Files changed.
    Changed,
    /// Watching failed with this message.
    Failed(String),
}

/// What the watch loop does next.
#[derive(Debug)]
pub enum WatchAction {
    /// Build the site again.
    Rebuild,
    /// Show this error and go on watching.
    Report(String),
    /// Send this message to every connected page.
    Broadcast(String),
}

/// What follows a report of the file watcher: a rebuild after a change, the
/// error after a failure.
pub fn on_watch_event(event: WatchEvent) -> (out: WatchAction)
    ensures
        match event {
            WatchEvent::Changed => out is Rebuild,
            WatchEvent::Failed(message) => out == WatchAction::Report(message),
        },
{
    match event {
        WatchEvent::Changed => WatchAction::Rebuild,
        WatchEvent::Failed(message) => WatchAction::Report(message),
    }
}

/// What follows a rebuild: the reload message to every connected page after
/// a build that succeeded, a report of the failure after one that did not.
/// Either way the loop goes on.
pub fn after_rebuild(failure: Option<String>) -> (out: WatchAction)
    ensures
        match failure {
            None => out matches WatchAction::Broadcast(message) && message@ == RELOAD_MESSAGE@,
            Some(error) => out matches WatchAction::Report(message) && message@
                == "Build failed -> "@ + error@,
        },
{
    match failure {
        None => WatchAction::Broadcast(RELOAD_MESSAGE.to_owned()),
        Some(error) => {
            let mut message = "Build failed -> ".to_owned();
            message.append(error.as_str());
            WatchAction::Report(message)
        },
    }
}

} // verus!
