//! Rename-execution policy: whether a planned rename proceeds under the
//! dry-run / interactive / force flags, and how an operator's line of
//! input is read as consent.

use vstd::prelude::*;
use crate::opts::Opts;
use crate::strutil::{is_space, is_space_char};

verus! {

/// Consent: optional whitespace, then `y` or `Y`.
pub open spec fn spec_affirmative(s: Seq<char>) -> bool {
    exists|i: int|
        0 <= i < s.len() && (s[i] == 'y' || s[i] == 'Y') && (forall|j: int|
            0 <= j < i ==> is_space_char(s[j]))
}

/// Reads an operator reply: leading whitespace is ignored, and only a
/// `y` or `Y` right after it consents.
pub fn is_affirmative(line: &str) -> (r: bool)
    ensures
        r == spec_affirmative(line@),
{
    let len = line.unicode_len();
    let mut i: usize = 0;
    while i < len && is_space(line.get_char(i))
        invariant
            len == line@.len(),
            i <= len,
            forall|j: int| 0 <= j < i ==> is_space_char(line@[j]),
        decreases len - i,
    {
        i += 1;
    }
    if i < len {
        let c = line.get_char(i);
        if c == 'y' || c == 'Y' {
            return true;
        }
        // The first non-whitespace character refuses; any later `y` sits
        // behind it and cannot satisfy the whitespace prefix.
        proof {
            assert(!spec_affirmative(line@)) by {
                if spec_affirmative(line@) {
                    let k = choose|k: int|
                        0 <= k < line@.len() && (line@[k] == 'y' || line@[k] == 'Y') && (forall|
                            j: int,
                        | 0 <= j < k ==> is_space_char(line@[j]));
                    assert(!is_space_char(line@[i as int]));
                    assert(k != i);
                    if k < i {
                        assert(is_space_char(line@[k as int]));
                    } else {
                        assert(is_space_char(line@[i as int]));
                    }
                }
            }
        }
        return false;
    }
    proof {
        assert(!spec_affirmative(line@)) by {
            if spec_affirmative(line@) {
                let k = choose|k: int|
                    0 <= k < line@.len() && (line@[k] == 'y' || line@[k] == 'Y') && (forall|j: int|
                        0 <= j < k ==> is_space_char(line@[j]));
                assert(is_space_char(line@[k]));
            }
        }
    }
    false
}

/// What the executor decided for one planned rename.
pub struct ExecDecision {
    /// The rename is wanted (policy and, interactively, the operator
    /// agree).
    pub proceed: bool,
    /// The filesystem is actually touched: wanted and not a dry run.
    pub mutate: bool,
}

/// Decides whether a planned rename may go ahead.  Interactively the
/// operator's answer alone decides; otherwise an existing destination
/// is protected unless force is set.  A dry run reports but never
/// mutates.
pub fn execute_policy(opts: &Opts, dest_exists: bool, affirmative: bool) -> (d: ExecDecision)
    ensures
        d.proceed == if opts.interactive {
            affirmative
        } else {
            !dest_exists || opts.force
        },
        d.mutate == (d.proceed && !opts.dry),
{
    let proceed = if opts.interactive {
        affirmative
    } else {
        !dest_exists || opts.force
    };
    ExecDecision { proceed, mutate: proceed && !opts.dry }
}

} // verus!
