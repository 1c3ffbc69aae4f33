use vstd::prelude::*;

verus! {

/// One observed filesystem event on a direct child of the base directory,
/// reduced to the bits the watcher reads.
#[derive(Clone, Copy, Debug, PartialEq, Eq, Structural)]
pub struct WatchEvent {
    pub moved_from: bool,
    pub moved_to: bool,
    pub delete: bool,
    pub close_write: bool,
}

/// An event that must trigger a refresh: a file moved out, moved in,
/// removed, or closed after writing.
pub open spec fn spec_triggers(e: WatchEvent) -> bool {
    e.moved_from || e.moved_to || e.delete || e.close_write
}

/// Whether a batch of events calls for a refresh of the index.
pub fn should_refresh(events: &Vec<WatchEvent>) -> (r: bool)
    ensures
        r == exists|i: int| 0 <= i < events@.len() && spec_triggers(events@[i]),
{
    let n = events.len();
    let mut i: usize = 0;
    while i < n
        invariant
            i <= n,
            n == events@.len(),
            forall|j: int| 0 <= j < i ==> !spec_triggers(events@[j]),
        decreases n - i,
    {
        let e = events[i];
        if e.moved_from || e.moved_to || e.delete || e.close_write {
            assert(spec_triggers(events@[i as int]));
            return true;
        }
        i = i + 1;
    }
    false
}

} // verus!
