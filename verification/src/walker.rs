//! The tree walker's decision table: what to do with a path once its
//! kind is known.  The traversal itself (stat, directory enumeration,
//! recursion) lives outside the library and only follows these steps.

use vstd::prelude::*;

verus! {

/// What inspecting a path found.
#[derive(Debug, Clone, Copy, PartialEq, Eq, Structural)]
pub enum PathKind {
    /// Metadata could not be read.
    StatError,
    /// A regular file (or anything that is not a directory).
    File,
    /// A directory.
    Directory,
}

/// The walker's next step for one path.
#[derive(Debug, Clone, Copy, PartialEq, Eq, Structural)]
pub enum WalkStep {
    /// Hand the path to the error handler; do not recurse.
    ReportError,
    /// Hand the path to the file pipeline.
    ProcessFile,
    /// Enumerate the directory and walk each entry.
    Descend,
    /// Report the directory and do not descend.
    SkipDir,
}

/// One step of the walk: errors are reported, files are processed, and
/// a directory is entered only when the run is recursive.
pub fn walk_step(kind: PathKind, recursive: bool) -> (s: WalkStep)
    ensures
        s == match kind {
            PathKind::StatError => WalkStep::ReportError,
            PathKind::File => WalkStep::ProcessFile,
            PathKind::Directory => if recursive {
                WalkStep::Descend
            } else {
                WalkStep::SkipDir
            },
        },
{
    match kind {
        PathKind::StatError => WalkStep::ReportError,
        PathKind::File => WalkStep::ProcessFile,
        PathKind::Directory => if recursive {
            WalkStep::Descend
        } else {
            WalkStep::SkipDir
        },
    }
}

} // verus!
