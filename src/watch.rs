//! What a directory watcher does on each thing it observes.

use vstd::prelude::*;

verus! {

/// What a watcher observes.
pub enum WatchEvent {
    /// Something changed below a watched root.
    Changed,
    /// A reload that a change started has failed.
    ReloadFailed,
    /// The watch mechanism reported an error about one event, and goes on.
    EventFailed,
    /// The watch mechanism itself has failed or gone away.
    BackendFailed,
}

/// What the watcher does next.
#[derive(Debug, PartialEq, Eq, Structural)]
pub enum WatchAction {
    /// Reload the engine, then keep watching.
    Reload,
    /// Report the failure and keep watching: a bad edit is fixed by a later
    /// one.
    Report,
    /// Stop watching and raise the failure as fatal.
    Stop,
}

/// A change triggers a reload; a failed reload, or an error about one
/// event, is reported and watching goes on; only a failure of the watch
/// mechanism itself ends the watch.
pub fn next_action(event: &WatchEvent) -> (r: WatchAction)
    ensures
        *event is Changed ==> r == WatchAction::Reload,
        *event is ReloadFailed ==> r == WatchAction::Report,
        *event is EventFailed ==> r == WatchAction::Report,
        *event is BackendFailed ==> r == WatchAction::Stop,
{
    match event {
        WatchEvent::Changed => WatchAction::Reload,
        WatchEvent::ReloadFailed => WatchAction::Report,
        WatchEvent::EventFailed => WatchAction::Report,
        WatchEvent::BackendFailed => WatchAction::Stop,
    }
}

} // verus!
