//! Files that are removed once nobody needs them.

use vstd::prelude::*;

use crate::paths::UnixPath;

verus! {

/// Holds a file that is to be removed when the guard is dropped.
#[derive(Debug)]
pub struct DeleteOnDrop(pub Option<UnixPath>);

impl DeleteOnDrop {
    /// Keeps the file: the guard that comes back removes nothing.
    pub fn finalize(self) -> (guard: DeleteOnDrop)
        ensures
            guard.0 is None,
    {
        let mut guard = self;
        let _ = guard.0.take();
        guard
    }

    /// The file to remove as the guard is dropped. It is handed out once.
    pub fn on_drop(&mut self) -> (file: Option<UnixPath>)
        ensures
            file == old(self).0,
            final(self).0 is None,
    {
        self.0.take()
    }
}

} // verus!
