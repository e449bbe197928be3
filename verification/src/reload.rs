//! Hot reload: which file changes call for a reload, at most one per half
//! second. Times are nanoseconds on a monotonic clock that the caller
//! reads.
use vstd::prelude::*;

verus! {

/// The kind of a change to watched files.
#[derive(Debug, Clone, Copy, PartialEq, Eq, Structural)]
pub enum FileChange {
    /// A file's contents changed.
    ModifyData,
    /// A file was renamed.
    ModifyName,
    /// Some other modification (metadata, unknown).
    ModifyOther,
    /// A file was created.
    CreateFile,
    /// Something else was created (a folder, unknown).
    CreateOther,
    /// A file was removed.
    RemoveFile,
    /// Something else was removed.
    RemoveOther,
    /// Access and any other event.
    Other,
}

/// The changes that call for a reload: new data or a new name, and files
/// created or removed.
pub open spec fn reload_kind(k: FileChange) -> bool {
    match k {
        FileChange::ModifyData | FileChange::ModifyName | FileChange::CreateFile
        | FileChange::RemoveFile => true,
        _ => false,
    }
}

/// Whether a change of kind `k` calls for a reload.
pub fn should_reload(k: FileChange) -> (r: bool)
    ensures
        r == reload_kind(k),
{
    match k {
        FileChange::ModifyData | FileChange::ModifyName | FileChange::CreateFile
        | FileChange::RemoveFile => true,
        _ => false,
    }
}

/// Nanoseconds within which a second reload is not triggered.
pub const DEBOUNCE_NANOS: u64 = 500_000_000;

/// Whether a reload is pending, and when the last one was triggered.
pub struct ReloadState {
    needed: bool,
    last_reload: u64,
}

impl ReloadState {
    /// Whether a reload is pending.
    pub closed spec fn pending(&self) -> bool {
        self.needed
    }

    /// When the last reload was triggered (or watching began).
    pub closed spec fn last(&self) -> u64 {
        self.last_reload
    }

    /// Nothing pending; watching began at `now`.
    pub fn new(now: u64) -> (r: Self)
        ensures
            !r.pending(),
            r.last() == now,
    {
        ReloadState { needed: false, last_reload: now }
    }

    /// Whether a reload is pending.
    pub fn is_reload_needed(&self) -> (r: bool)
        ensures
            r == self.pending(),
    {
        self.needed
    }

    /// Marks the pending reload as done.
    pub fn reset_reload(&mut self)
        ensures
            !final(self).pending(),
            final(self).last() == old(self).last(),
    {
        self.needed = false;
    }

    /// A change of kind `k` seen at `now`: a reload is triggered when the
    /// kind calls for one and more than half a second has passed since the
    /// last; says whether it was.
    pub fn on_change(&mut self, k: FileChange, now: u64) -> (r: bool)
        ensures
            r == (reload_kind(k) && now >= old(self).last() && now - old(self).last()
                > DEBOUNCE_NANOS),
            r ==> final(self).pending() && final(self).last() == now,
            !r ==> final(self).pending() == old(self).pending() && final(self).last() == old(
                self,
            ).last(),
    {
        if should_reload(k) && now >= self.last_reload && now - self.last_reload > DEBOUNCE_NANOS {
            self.last_reload = now;
            self.needed = true;
            true
        } else {
            false
        }
    }
}

/// The folders watched by default.
pub fn default_watch_dirs() -> (r: Vec<String>)
    ensures
        r@.len() == 4,
        r@[0]@ == "src"@,
        r@[1]@ == "templates"@,
        r@[2]@ == "public"@,
        r@[3]@ == "static"@,
{
    let mut v: Vec<String> = Vec::new();
    v.push(crate::text::to_owned_string("src"));
    v.push(crate::text::to_owned_string("templates"));
    v.push(crate::text::to_owned_string("public"));
    v.push(crate::text::to_owned_string("static"));
    v
}

} // verus!
