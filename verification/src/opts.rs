//! The options of one run, as the command surface sets them.

use vstd::prelude::*;

verus! {

/// Policy flags and the extension cut index for a whole run.
#[derive(Debug, Clone, Copy)]
pub struct Opts {
    /// Report renames without performing them.
    pub dry: bool,
    /// Ask the operator before each rename.
    pub interactive: bool,
    /// When non-interactive, overwrite an existing destination.
    pub force: bool,
    /// Descend into directories instead of skipping them.
    pub recursive: bool,
    /// Append the correct extension instead of replacing the current one.
    pub append: bool,
    /// Only print detected types.
    pub detect: bool,
    /// Only print the known rule tables.
    pub dump: bool,
    /// Cut the extension after this dot segment (signed, from the end
    /// when negative).
    pub extdot: i32,
    /// Show what matched and why.
    pub verbose: bool,
}

impl Default for Opts {
    /// Everything off; the cut index is set by the caller (the command
    /// surface defaults it to the last dot segment).
    fn default() -> (r: Opts)
        ensures
            !r.dry && !r.interactive && !r.force && !r.recursive && !r.append && !r.detect
                && !r.dump && !r.verbose,
            r.extdot == 0,
    {
        Opts {
            dry: false,
            interactive: false,
            force: false,
            recursive: false,
            append: false,
            detect: false,
            dump: false,
            extdot: 0,
            verbose: false,
        }
    }
}

} // verus!
