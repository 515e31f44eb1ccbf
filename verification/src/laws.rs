//! Laws of the decision engine, stated and proved once over the spec
//! functions the executable contracts use.

use vstd::prelude::*;
use crate::analyzer::{spec_analyze, spec_si, PartsModel};
use crate::classify::{
    is_question_list, is_star_list, spec_classify, spec_match_exts, spec_match_file,
    spec_mime_lookup, spec_scan_desc, MatchModel,
};
use crate::pattern::regex_matches;
use crate::planner::{spec_decide, spec_new_base, spec_plan, ActionModel};
use crate::strutil::{
    is_sep2, lemma_join_split_id, lemma_join_take_skip, lemma_split2_concat,
    lemma_split2_parts_sep_free, lemma_split2_sep_free, lemma_split_join_id, spec_join,
    spec_split,
};

verus! {

/// Actions that leave the filesystem untouched by design (not skips).
pub open spec fn action_is_noop(a: ActionModel) -> bool {
    a is NoOpIgnored || a is NoOpAlreadyCorrect || a is NoOpSameTarget
}

/// Idempotence of the planner: a file whose current extension already
/// belongs to the list its classification resolved to is left alone.
pub proof fn lemma_plan_member_noop(parts: PartsModel, exts: Seq<Seq<char>>, append: bool)
    requires
        crate::planner::parts_wf(parts),
        parts.ext.len() > 0,
        exts.contains(parts.ext),
    ensures
        action_is_noop(spec_plan(parts, exts, append)),
{
    if !is_star_list(exts) {
        let extdot = choose|extdot: int| parts == spec_analyze(parts.dir, parts.base, extdot);
        assert(parts.valid);
    }
}

/// Sentinel precedence: once a description rule has decided — as a rule
/// with the `*` list does — the media-type table is never consulted,
/// and the `*` list always plans a no-op.
pub proof fn lemma_sentinel_precedence(
    desc_tbl: Seq<(Seq<char>, Seq<Seq<char>>)>,
    mime_tbl: Seq<(Seq<char>, Seq<Seq<char>>)>,
    d: Seq<char>,
    m: Seq<char>,
    parts: PartsModel,
    append: bool,
    p: Seq<char>,
    e: Seq<Seq<char>>,
)
    requires
        spec_scan_desc(desc_tbl, d, None) == Some((p, e)),
        is_star_list(e),
        d.len() > 0 || m.len() > 0,
    ensures
        spec_classify(desc_tbl, mime_tbl, d, m) == MatchModel::Description(p, e),
        spec_decide(desc_tbl, mime_tbl, d, m, parts, append) == ActionModel::NoOpIgnored,
{
}

/// `?`-sentinel fallthrough: when the first of two description rules
/// matches and carries the `?` list, the scan stops at once and the
/// classification falls through to the media-type table, whatever the
/// second rule would have said.
pub proof fn lemma_question_fallthrough(
    a: (Seq<char>, Seq<Seq<char>>),
    b: (Seq<char>, Seq<Seq<char>>),
    mime_tbl: Seq<(Seq<char>, Seq<Seq<char>>)>,
    d: Seq<char>,
    m: Seq<char>,
)
    requires
        regex_matches(a.0, d),
        is_question_list(a.1),
    ensures
        spec_classify(seq![a, b], mime_tbl, d, m) == match spec_mime_lookup(mime_tbl, m) {
            Some(e) => MatchModel::Mime(m, e),
            None => MatchModel::Unmatched,
        },
{
    assert(spec_scan_desc(seq![a, b], d, None) == None::<(Seq<char>, Seq<Seq<char>>)>);
}

/// Last match wins: of two matching non-sentinel description rules, the
/// second one governs the classification.
pub proof fn lemma_last_match_wins(
    r1: (Seq<char>, Seq<Seq<char>>),
    r2: (Seq<char>, Seq<Seq<char>>),
    mime_tbl: Seq<(Seq<char>, Seq<Seq<char>>)>,
    d: Seq<char>,
    m: Seq<char>,
)
    requires
        regex_matches(r1.0, d),
        regex_matches(r2.0, d),
        !is_question_list(r1.1),
        !is_question_list(r2.1),
    ensures
        spec_classify(seq![r1, r2], mime_tbl, d, m) == MatchModel::Description(r2.0, r2.1),
{
    let rules = seq![r1, r2];
    assert(rules[0] == r1);
    assert(rules.drop_first() =~= seq![r2]);
    assert(seq![r2][0] == r2);
    assert(seq![r2].drop_first() =~= Seq::<(Seq<char>, Seq<Seq<char>>)>::empty());
    assert(spec_scan_desc(rules, d, None) == spec_scan_desc(seq![r2], d, Some(r1)));
    assert(spec_scan_desc(seq![r2], d, Some(r1)) == spec_scan_desc(
        Seq::<(Seq<char>, Seq<Seq<char>>)>::empty(),
        d,
        Some(r2),
    ));
    assert(spec_scan_desc(Seq::<(Seq<char>, Seq<Seq<char>>)>::empty(), d, Some(r2)) == Some(r2));
}

proof fn lemma_scan_no_match(
    rules: Seq<(Seq<char>, Seq<Seq<char>>)>,
    d: Seq<char>,
    acc: Option<(Seq<char>, Seq<Seq<char>>)>,
)
    requires
        forall|i: int| 0 <= i < rules.len() ==> !regex_matches(rules[i].0, d),
    ensures
        spec_scan_desc(rules, d, acc) == acc,
    decreases rules.len(),
{
    if rules.len() > 0 {
        assert(forall|i: int| 0 <= i < rules.drop_first().len()
            ==> !regex_matches(rules.drop_first()[i].0, d));
        lemma_scan_no_match(rules.drop_first(), d, acc);
    }
}

proof fn lemma_scan_unmatched_suffix(
    r1: Seq<(Seq<char>, Seq<Seq<char>>)>,
    r2: Seq<(Seq<char>, Seq<Seq<char>>)>,
    d: Seq<char>,
    acc: Option<(Seq<char>, Seq<Seq<char>>)>,
)
    requires
        forall|i: int| 0 <= i < r2.len() ==> !regex_matches(r2[i].0, d),
    ensures
        spec_scan_desc(r1 + r2, d, acc) == spec_scan_desc(r1, d, acc),
    decreases r1.len(),
{
    if r1.len() == 0 {
        assert(r1 + r2 =~= r2);
        lemma_scan_no_match(r2, d, acc);
    } else {
        assert((r1 + r2)[0] == r1[0]);
        assert((r1 + r2).drop_first() =~= r1.drop_first() + r2);
        lemma_scan_unmatched_suffix(r1.drop_first(), r2, d, acc);
        lemma_scan_unmatched_suffix(r1.drop_first(), r2, d, Some(r1[0]));
    }
}

/// Override precedence: the merged table scans the (reversed) overrides
/// ahead of the built-in rules, so on a description that no built-in
/// rule matches, the merged table classifies exactly as the overrides
/// alone would.
pub proof fn lemma_override_precedence(
    ovs: Seq<(Seq<char>, Seq<Seq<char>>)>,
    builtin: Seq<(Seq<char>, Seq<Seq<char>>)>,
    mime_tbl: Seq<(Seq<char>, Seq<Seq<char>>)>,
    d: Seq<char>,
    m: Seq<char>,
)
    requires
        forall|i: int| 0 <= i < builtin.len() ==> !regex_matches(builtin[i].0, d),
    ensures
        spec_classify(ovs.reverse() + builtin, mime_tbl, d, m) == spec_classify(
            ovs.reverse(),
            mime_tbl,
            d,
            m,
        ),
{
    lemma_scan_unmatched_suffix(ovs.reverse(), builtin, d, None);
}

/// A single override that matches governs the merged table whenever no
/// built-in rule matches the description.
pub proof fn lemma_override_governs(
    p: Seq<char>,
    e: Seq<Seq<char>>,
    builtin: Seq<(Seq<char>, Seq<Seq<char>>)>,
    mime_tbl: Seq<(Seq<char>, Seq<Seq<char>>)>,
    d: Seq<char>,
    m: Seq<char>,
)
    requires
        regex_matches(p, d),
        !is_question_list(e),
        forall|i: int| 0 <= i < builtin.len() ==> !regex_matches(builtin[i].0, d),
    ensures
        spec_classify(seq![(p, e)].reverse() + builtin, mime_tbl, d, m)
            == MatchModel::Description(p, e),
{
    let ovs = seq![(p, e)];
    assert(ovs.reverse() =~= ovs);
    lemma_override_precedence(ovs, builtin, mime_tbl, d, m);
    assert(ovs[0] == (p, e));
    assert(ovs.drop_first() =~= Seq::<(Seq<char>, Seq<Seq<char>>)>::empty());
    assert(spec_scan_desc(ovs, d, None) == spec_scan_desc(
        Seq::<(Seq<char>, Seq<Seq<char>>)>::empty(),
        d,
        Some((p, e)),
    ));
    assert(spec_scan_desc(Seq::<(Seq<char>, Seq<Seq<char>>)>::empty(), d, Some((p, e)))
        == Some((p, e)));
}

/// Running the whole decision twice: when classification and planning
/// rename a file, the same classification on the corrected name plans
/// no second rename.  The detected description and media type are those
/// of the file's content, which a rename does not change.
pub proof fn lemma_pipeline_idempotent(
    desc_tbl: Seq<(Seq<char>, Seq<Seq<char>>)>,
    mime_tbl: Seq<(Seq<char>, Seq<Seq<char>>)>,
    d: Seq<char>,
    m: Seq<char>,
    dir: Seq<char>,
    base: Seq<char>,
    extdot: int,
    append: bool,
    nb: Seq<char>,
)
    requires
        spec_decide(desc_tbl, mime_tbl, d, m, spec_analyze(dir, base, extdot), append)
            == ActionModel::Rename(nb),
        ({
            let exts = spec_match_exts(spec_match_file(desc_tbl, mime_tbl, d, m));
            exts.len() > 0 && exts[0].len() > 0 && !exts[0].contains('.')
        }),
        extdot == -1 || (extdot >= 0 && !append && (spec_analyze(
            dir,
            base,
            extdot,
        ).has_dot || extdot == 0)),
    ensures
        spec_decide(desc_tbl, mime_tbl, d, m, spec_analyze(dir, nb, extdot), append)
            == ActionModel::NoOpAlreadyCorrect,
{
    let exts = spec_match_exts(spec_match_file(desc_tbl, mime_tbl, d, m));
    lemma_rename_idempotent(dir, base, extdot, exts, append, nb);
}

/// Planner idempotence: when the planner renames a file, analyzing the
/// corrected name under the same cut index and planning again with the
/// same extension list finds the extension already correct.  This holds
/// for the default cut index (the last segment), and in replace mode
/// for any non-negative index; the candidate extension must be a real,
/// dot-free extension.
pub proof fn lemma_rename_idempotent(
    dir: Seq<char>,
    base: Seq<char>,
    extdot: int,
    exts: Seq<Seq<char>>,
    append: bool,
    nb: Seq<char>,
)
    requires
        spec_plan(spec_analyze(dir, base, extdot), exts, append) == ActionModel::Rename(nb),
        exts.len() > 0,
        exts[0].len() > 0,
        !exts[0].contains('.'),
        extdot == -1 || (extdot >= 0 && !append && (spec_analyze(
            dir,
            base,
            extdot,
        ).has_dot || extdot == 0)),
    ensures
        spec_plan(spec_analyze(dir, nb, extdot), exts, append) == ActionModel::NoOpAlreadyCorrect,
{
    let p = spec_analyze(dir, base, extdot);
    let segs = spec_split(base, '.');
    let sub = segs.skip(1);
    let cand = exts[0];
    let ll = sub.len() as int;
    crate::strutil::lemma_split2_len(base, '.', '.');
    assert(forall|k: int| 0 <= k < cand.len() ==> !is_sep2(cand[k], '.', '.')) by {
        assert forall|k: int| 0 <= k < cand.len() implies !is_sep2(cand[k], '.', '.') by {
            if cand[k] == '.' {
                assert(cand.contains('.'));
            }
        }
    }
    lemma_split2_sep_free(cand, '.', '.');
    let segs2: Seq<Seq<char>>;
    if append || !p.has_dot {
        // The candidate is appended after the whole name.
        assert(nb == base + seq!['.'] + cand);
        lemma_split2_concat(base, cand, '.', '.', '.');
        segs2 = segs + seq![cand];
        assert(spec_split(nb, '.') == segs2);
    } else {
        // The current extension and its dot are replaced.
        assert(p.valid);
        let idx = spec_si(ll, extdot).unwrap();
        let k = idx + 1;
        lemma_join_split_id(base, '.');
        lemma_join_take_skip(segs, '.', k);
        assert(sub.skip(idx) =~= segs.skip(k));
        assert(base == spec_join(segs.take(k), '.') + seq!['.'] + p.ext);
        assert(base.take(base.len() - p.ext.len() - 1) =~= spec_join(segs.take(k), '.'));
        assert(nb == spec_join(segs.take(k), '.') + seq!['.'] + cand);
        lemma_split2_parts_sep_free(base, '.', '.');
        assert(forall|i: int, j: int| 0 <= i < segs.take(k).len() && 0 <= j
            < segs.take(k)[i].len() ==> segs.take(k)[i][j] != '.');
        lemma_split_join_id(segs.take(k), '.');
        lemma_split2_concat(spec_join(segs.take(k), '.'), cand, '.', '.', '.');
        segs2 = segs.take(k) + seq![cand];
        assert(spec_split(nb, '.') == segs2);
    }
    let p2 = spec_analyze(dir, nb, extdot);
    let sub2 = segs2.skip(1);
    assert(segs2.len() >= 2);
    assert(sub2.last() == cand);
    // The cut index resolves on the new name to exactly the candidate.
    if extdot == -1 {
        assert(spec_si(sub2.len() as int, -1) == Some(sub2.len() - 1));
        assert(sub2.skip(sub2.len() - 1) =~= seq![cand]);
        assert(p2.ext == spec_join(seq![cand], '.'));
    } else {
        assert(extdot >= 0 && !append);
        if p.has_dot {
            let idx = spec_si(ll, extdot).unwrap();
            assert(idx == extdot);
            assert(sub2.len() == extdot + 1);
        } else {
            assert(extdot == 0);
            assert(segs.len() == 1);
            assert(sub2.len() == 1);
        }
        assert(spec_si(sub2.len() as int, extdot) == Some(extdot));
        assert(sub2.skip(extdot) =~= seq![cand]);
        assert(p2.ext == spec_join(seq![cand], '.'));
    }
    assert(p2.ext == cand);
    assert(p2.valid && p2.has_dot);
    assert(exts.contains(cand)) by {
        assert(exts[0] == cand);
    }
    assert(!is_star_list(exts));
}

} // verus!
