//! The state machine of the folder watcher: at most one folder is watched
//! at a time, and starting a new watch first leaves the old one. The raw
//! change notifications are mapped to their outgoing labels here; the
//! platform plumbing that produces them stays outside.

use vstd::prelude::*;

verus! {

/// The watcher: idle, or watching one folder.
#[derive(Debug)]
pub struct FileWatcher {
    watching_path: Option<String>,
}

impl FileWatcher {
    /// The folder under watch, if any.
    pub closed spec fn watched(self) -> Option<Seq<char>> {
        match self.watching_path {
            Some(p) => Some(p@),
            None => None,
        }
    }

    /// A fresh watcher is idle.
    pub fn new() -> (r: Self)
        ensures
            r.watched() is None,
    {
        FileWatcher { watching_path: None }
    }

    /// Starts watching a folder. Whatever was watched before is left
    /// first, so one folder is under watch at a time; the result says
    /// whether a previous watch had to be stopped.
    pub fn start_watching(&mut self, path: String) -> (stopped_previous: bool)
        ensures
            final(self).watched() == Some(path@),
            stopped_previous == (old(self).watched() is Some),
    {
        let had = self.watching_path.is_some();
        self.watching_path = Some(path);
        had
    }

    /// Stops watching; the watcher is idle afterwards.
    pub fn stop_watching(&mut self)
        ensures
            final(self).watched() is None,
    {
        self.watching_path = None;
    }

    /// Whether a folder is under watch.
    pub fn is_watching(&self) -> (r: bool)
        ensures
            r == (self.watched() is Some),
    {
        self.watching_path.is_some()
    }

    /// The folder under watch, if any.
    pub fn get_watching_path(&self) -> (r: Option<&String>)
        ensures
            match r {
                Some(p) => self.watched() == Some(p@),
                None => self.watched() is None,
            },
    {
        self.watching_path.as_ref()
    }
}

/// The kind of one raw change notification.
#[derive(Debug, Clone, Copy, PartialEq, Eq, Structural)]
pub enum WatchEventKind {
    Create,
    Modify,
    Remove,
    Access,
    Other,
}

/// The outgoing label of a notification kind; access notifications are
/// dropped.
pub fn event_label(kind: WatchEventKind) -> (r: Option<&'static str>)
    ensures
        match kind {
            WatchEventKind::Create => r matches Some(s) && s@ == "create"@,
            WatchEventKind::Modify => r matches Some(s) && s@ == "modify"@,
            WatchEventKind::Remove => r matches Some(s) && s@ == "remove"@,
            WatchEventKind::Access => r is None,
            WatchEventKind::Other => r matches Some(s) && s@ == "other"@,
        },
{
    match kind {
        WatchEventKind::Create => Some("create"),
        WatchEventKind::Modify => Some("modify"),
        WatchEventKind::Remove => Some("remove"),
        WatchEventKind::Access => None,
        WatchEventKind::Other => Some("other"),
    }
}

} // verus!
