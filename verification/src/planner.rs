//! The rename planner: combines the analyzed file name with the extension
//! list the classifier produced, and decides between a rename, a no-op
//! and a reasoned skip.

use vstd::prelude::*;
use crate::analyzer::{spec_analyze, spec_si, FileNameParts, PartsModel};
use crate::classify::{
    is_star_list, is_singleton_list, match_file, match_extensions, spec_match_exts,
    spec_match_file, Types,
};
use crate::strutil::{
    lemma_join_split_id, lemma_join_take_skip, push_char, spec_join, spec_split, str_eq,
};

verus! {

/// The planner's verdict for one file.
#[derive(Debug)]
pub enum RenameAction {
    /// The rule table deliberately excludes this type (the `*` sentinel).
    NoOpIgnored,
    /// No extension is associated with the detected type.
    SkipNoMapping,
    /// The name has a dot, but the cut index does not resolve.
    SkipIndexError,
    /// The current extension is already in the associated list.
    NoOpAlreadyCorrect,
    /// The corrected base name equals the current one.
    NoOpSameTarget,
    /// Rename to this new base name, inside the same directory.
    Rename(String),
}

/// Mathematical image of a `RenameAction`.
pub enum ActionModel {
    NoOpIgnored,
    SkipNoMapping,
    SkipIndexError,
    NoOpAlreadyCorrect,
    NoOpSameTarget,
    Rename(Seq<char>),
}

impl View for RenameAction {
    type V = ActionModel;

    open spec fn view(&self) -> ActionModel {
        match self {
            RenameAction::NoOpIgnored => ActionModel::NoOpIgnored,
            RenameAction::SkipNoMapping => ActionModel::SkipNoMapping,
            RenameAction::SkipIndexError => ActionModel::SkipIndexError,
            RenameAction::NoOpAlreadyCorrect => ActionModel::NoOpAlreadyCorrect,
            RenameAction::NoOpSameTarget => ActionModel::NoOpSameTarget,
            RenameAction::Rename(s) => ActionModel::Rename(s@),
        }
    }
}

/// A well-formed decomposition: one that the analyzer can produce for its
/// own directory and base name under some cut index.
pub open spec fn parts_wf(p: PartsModel) -> bool {
    exists|extdot: int| p == spec_analyze(p.dir, p.base, extdot)
}

/// The corrected base name: the candidate extension is appended to the
/// whole name (append mode, or no dot present), or replaces the current
/// extension together with its leading dot.
pub open spec fn spec_new_base(parts: PartsModel, cand: Seq<char>, append: bool) -> Seq<char> {
    if append || !parts.has_dot {
        parts.base + seq!['.'] + cand
    } else {
        parts.base.take(parts.base.len() - parts.ext.len() - 1) + seq!['.'] + cand
    }
}

/// The planner: the `*` sentinel always yields a no-op; an empty list is
/// a skip; a current extension found in the list is already correct;
/// otherwise the first listed extension is the candidate, and the rename
/// is planned unless it would not change the name.  A name with a dot
/// whose cut index did not resolve is skipped as an index error.
pub open spec fn spec_plan(parts: PartsModel, exts: Seq<Seq<char>>, append: bool) -> ActionModel {
    if is_star_list(exts) {
        ActionModel::NoOpIgnored
    } else if exts.len() == 0 {
        ActionModel::SkipNoMapping
    } else if parts.has_dot && !parts.valid {
        ActionModel::SkipIndexError
    } else if parts.ext.len() > 0 && exts.contains(parts.ext) {
        ActionModel::NoOpAlreadyCorrect
    } else {
        let nb = spec_new_base(parts, exts[0], append);
        if nb == parts.base {
            ActionModel::NoOpSameTarget
        } else {
            ActionModel::Rename(nb)
        }
    }
}

/// On a valid decomposition with a dot, the base name is the part before
/// the cut, a dot, and the current extension.
pub proof fn lemma_analyze_ext_suffix(dir: Seq<char>, base: Seq<char>, extdot: int)
    ensures
        ({
            let p = spec_analyze(dir, base, extdot);
            p.valid && p.has_dot ==> p.base.len() > p.ext.len()
                && p.base == p.base.take(p.base.len() - p.ext.len() - 1) + seq!['.'] + p.ext
        }),
{
    let p = spec_analyze(dir, base, extdot);
    if p.valid && p.has_dot {
        let segments = spec_split(base, '.');
        let sub = segments.skip(1);
        let idx = spec_si(sub.len() as int, extdot).unwrap();
        let k = idx + 1;
        lemma_join_split_id(base, '.');
        lemma_join_take_skip(segments, '.', k);
        assert(sub.skip(idx) =~= segments.skip(k));
        assert(base == spec_join(segments.take(k), '.') + seq!['.'] + p.ext);
        assert(p.base.take(p.base.len() - p.ext.len() - 1)
            =~= spec_join(segments.take(k), '.'));
    }
}

/// Whether `s` occurs in the extension list.
pub fn list_contains(exts: &Vec<String>, s: &str) -> (r: bool)
    ensures
        r == exts.deep_view().contains(s@),
{
    let n = exts.len();
    let mut i: usize = 0;
    while i < n
        invariant
            n == exts@.len(),
            i <= n,
            forall|k: int| 0 <= k < i ==> exts.deep_view()[k] != s@,
        decreases n - i,
    {
        if str_eq(exts[i].as_str(), s) {
            proof {
                assert(exts.deep_view()[i as int] == s@);
            }
            return true;
        }
        i += 1;
    }
    proof {
        assert(!exts.deep_view().contains(s@)) by {
            if exts.deep_view().contains(s@) {
                let k = choose|k: int|
                    0 <= k < exts.deep_view().len() && exts.deep_view()[k] == s@;
                assert(exts.deep_view()[k] != s@);
            }
        }
    }
    false
}

/// Plans the action for one analyzed file name and one extension list.
pub fn plan(parts: &FileNameParts, exts: &Vec<String>, append: bool) -> (a: RenameAction)
    requires
        parts_wf(parts@),
    ensures
        a@ == spec_plan(parts@, exts.deep_view(), append),
{
    if is_singleton_list(exts, '*') {
        return RenameAction::NoOpIgnored;
    }
    if exts.len() == 0 {
        return RenameAction::SkipNoMapping;
    }
    if parts.has_dot && !parts.valid {
        return RenameAction::SkipIndexError;
    }
    let elen = parts.ext.as_str().unicode_len();
    if elen > 0 && list_contains(exts, parts.ext.as_str()) {
        return RenameAction::NoOpAlreadyCorrect;
    }
    let cand = exts[0].as_str();
    let ghost candv = exts.deep_view()[0];
    proof {
        assert(candv == cand@);
    }
    let mut nb: String;
    if append || !parts.has_dot {
        nb = parts.base.clone();
    } else {
        let blen = parts.base.as_str().unicode_len();
        proof {
            let extdot = choose|extdot: int|
                parts@ == spec_analyze(parts@.dir, parts@.base, extdot);
            lemma_analyze_ext_suffix(parts@.dir, parts@.base, extdot);
        }
        nb = parts.base.as_str().substring_char(0, blen - elen - 1).to_owned();
    }
    push_char(&mut nb, '.');
    nb.append(cand);
    proof {
        assert(nb@ =~= spec_new_base(parts@, candv, append));
    }
    if str_eq(nb.as_str(), parts.base.as_str()) {
        return RenameAction::NoOpSameTarget;
    }
    RenameAction::Rename(nb)
}

/// The whole decision for one file: classification followed by the
/// planner, on the extension list the classification carries.
pub open spec fn spec_decide(
    desc_tbl: Seq<(Seq<char>, Seq<Seq<char>>)>,
    mime_tbl: Seq<(Seq<char>, Seq<Seq<char>>)>,
    d: Seq<char>,
    m: Seq<char>,
    parts: PartsModel,
    append: bool,
) -> ActionModel {
    spec_plan(parts, spec_match_exts(spec_match_file(desc_tbl, mime_tbl, d, m)), append)
}

/// Decides the action for one file from the detected description and
/// media type, the rule table, and the analyzed file name.
pub fn decide(
    desc: &str,
    mime: &str,
    types: &Types,
    parts: &FileNameParts,
    append: bool,
) -> (a: RenameAction)
    requires
        parts_wf(parts@),
    ensures
        a@ == spec_decide(types.desc_view(), types.mime_view(), desc@, mime@, parts@, append),
{
    let m = match_file(desc, mime, types);
    let (exts, _label) = match_extensions(&m, desc, mime);
    plan(parts, &exts, append)
}

} // verus!
