//! The type classifier: scans the ordered description rules (last
//! matching non-sentinel rule wins, the `?` sentinel halts the scan) and
//! falls back to the media-type table when no description rule decided.

use vstd::prelude::*;
use crate::pattern::{regex_matches, Pattern};
use crate::strutil::str_eq;

verus! {

/// The rule table: ordered description rules, and a media-type table
/// whose keys are unique (it stands for a map; the merge keeps it so).
pub struct Types {
    pub desc: Vec<(Pattern, Vec<String>)>,
    pub mime: Vec<(String, Vec<String>)>,
}

/// Mathematical image of a description rule list: pattern text and
/// extension list of each rule, in order.
pub open spec fn desc_model(rules: Seq<(Pattern, Vec<String>)>) -> Seq<(Seq<char>, Seq<Seq<char>>)> {
    rules.map_values(|r: (Pattern, Vec<String>)| (r.0.text(), r.1.deep_view()))
}

/// Mathematical image of the media-type table.
pub open spec fn mime_model(rules: Seq<(String, Vec<String>)>) -> Seq<(Seq<char>, Seq<Seq<char>>)> {
    rules.map_values(|r: (String, Vec<String>)| (r.0@, r.1.deep_view()))
}

impl Types {
    /// The description rules as pattern texts and extension lists.
    pub open spec fn desc_view(&self) -> Seq<(Seq<char>, Seq<Seq<char>>)> {
        desc_model(self.desc@)
    }

    /// The media-type table as key strings and extension lists.
    pub open spec fn mime_view(&self) -> Seq<(Seq<char>, Seq<Seq<char>>)> {
        mime_model(self.mime@)
    }

    /// The media-type table keys are unique.
    pub open spec fn mime_keys_unique(&self) -> bool {
        mime_unique(self.mime_view())
    }
}

/// Keys of a media-type table are pairwise distinct.
pub open spec fn mime_unique(rules: Seq<(Seq<char>, Seq<Seq<char>>)>) -> bool {
    forall|i: int, j: int| 0 <= i < j < rules.len() ==> rules[i].0 != rules[j].0
}

/// The `*` sentinel: a list holding exactly the extension `*`.
pub open spec fn is_star_list(exts: Seq<Seq<char>>) -> bool {
    exts.len() == 1 && exts[0].len() == 1 && exts[0][0] == '*'
}

/// The `?` sentinel: a list holding exactly the extension `?`.
pub open spec fn is_question_list(exts: Seq<Seq<char>>) -> bool {
    exts.len() == 1 && exts[0].len() == 1 && exts[0][0] == '?'
}

/// Executable test for a one-element list holding the one-character
/// extension `c`.
pub fn is_singleton_list(exts: &Vec<String>, c: char) -> (r: bool)
    ensures
        r == (exts.deep_view().len() == 1 && exts.deep_view()[0].len() == 1
            && exts.deep_view()[0][0] == c),
{
    if exts.len() != 1 {
        return false;
    }
    let s = &exts[0];
    let slen = s.as_str().unicode_len();
    if slen != 1 {
        return false;
    }
    s.as_str().get_char(0) == c
}

/// How one classification came out.
pub enum MatchModel {
    /// A description rule decided: its pattern text and extension list.
    Description(Seq<char>, Seq<Seq<char>>),
    /// The media-type table decided: the media type and its extension list.
    Mime(Seq<char>, Seq<Seq<char>>),
    /// No rule applies.
    Unmatched,
}

/// The classification of one file, as reported to callers.
#[derive(Debug)]
pub enum MagicMatch {
    /// A description rule matched: its pattern text and extension list.
    Description(String, Vec<String>),
    /// The media type was found in the table: the type and its list.
    MIME(String, Vec<String>),
    /// Neither table knows the file.
    Unmatched,
}

impl View for MagicMatch {
    type V = MatchModel;

    open spec fn view(&self) -> MatchModel {
        match self {
            MagicMatch::Description(p, e) => MatchModel::Description(p@, e.deep_view()),
            MagicMatch::MIME(m, e) => MatchModel::Mime(m@, e.deep_view()),
            MagicMatch::Unmatched => MatchModel::Unmatched,
        }
    }
}

/// The description scan: rules are tried in order; a matching rule whose
/// list is the `?` sentinel halts the scan with whatever was recorded
/// before; any other matching rule replaces the record, so the last
/// matching non-sentinel rule wins.
pub open spec fn spec_scan_desc(
    rules: Seq<(Seq<char>, Seq<Seq<char>>)>,
    d: Seq<char>,
    acc: Option<(Seq<char>, Seq<Seq<char>>)>,
) -> Option<(Seq<char>, Seq<Seq<char>>)>
    decreases rules.len(),
{
    if rules.len() == 0 {
        acc
    } else {
        let r0 = rules[0];
        if regex_matches(r0.0, d) {
            if is_question_list(r0.1) {
                acc
            } else {
                spec_scan_desc(rules.drop_first(), d, Some(r0))
            }
        } else {
            spec_scan_desc(rules.drop_first(), d, acc)
        }
    }
}

/// First entry of the media-type table with the given key, if any.
pub open spec fn spec_mime_lookup(
    tbl: Seq<(Seq<char>, Seq<Seq<char>>)>,
    m: Seq<char>,
) -> Option<Seq<Seq<char>>>
    decreases tbl.len(),
{
    if tbl.len() == 0 {
        None
    } else if tbl[0].0 == m {
        Some(tbl[0].1)
    } else {
        spec_mime_lookup(tbl.drop_first(), m)
    }
}

/// The whole classification: the description scan decides if it recorded
/// anything; otherwise the media-type table is consulted.
pub open spec fn spec_classify(
    desc_tbl: Seq<(Seq<char>, Seq<Seq<char>>)>,
    mime_tbl: Seq<(Seq<char>, Seq<Seq<char>>)>,
    d: Seq<char>,
    m: Seq<char>,
) -> MatchModel {
    match spec_scan_desc(desc_tbl, d, None) {
        Some(r) => MatchModel::Description(r.0, r.1),
        None => match spec_mime_lookup(mime_tbl, m) {
            Some(e) => MatchModel::Mime(m, e),
            None => MatchModel::Unmatched,
        },
    }
}

/// Image of the running record of the scan loop.
pub open spec fn acc_model(acc: Option<(String, Vec<String>)>) -> Option<(Seq<char>, Seq<Seq<char>>)> {
    match acc {
        Some(r) => Some((r.0@, r.1.deep_view())),
        None => None,
    }
}

/// Classifies one detected (description, media type) pair against the
/// rule table.
pub fn match_types(desc: &str, mime: &str, types: &Types) -> (r: MagicMatch)
    ensures
        r@ == spec_classify(types.desc_view(), types.mime_view(), desc@, mime@),
{
    let ghost dmodel = types.desc_view();
    let mut cur: Option<(String, Vec<String>)> = None;
    let n = types.desc.len();
    let mut i: usize = 0;
    let mut halted = false;
    proof {
        assert(dmodel.skip(0) =~= dmodel);
    }
    while i < n && !halted
        invariant
            n == types.desc@.len(),
            i <= n,
            dmodel == types.desc_view(),
            !halted ==> spec_scan_desc(dmodel, desc@, None)
                == spec_scan_desc(dmodel.skip(i as int), desc@, acc_model(cur)),
            halted ==> spec_scan_desc(dmodel, desc@, None) == acc_model(cur),
        decreases n - i, if halted { 0int } else { 1int },
    {
        proof {
            assert(dmodel.skip(i as int).drop_first() =~= dmodel.skip(i + 1));
            assert(dmodel.skip(i as int)[0] == dmodel[i as int]);
        }
        let rule = &types.desc[i];
        if rule.0.is_match(desc) {
            if is_singleton_list(&rule.1, '?') {
                // The `?` sentinel: stop scanning, keep the record so far.
                halted = true;
            } else {
                let exts = rule.1.clone();
                proof {
                    assert(exts.deep_view() =~= rule.1.deep_view());
                }
                cur = Some((rule.0.src_str().to_owned(), exts));
                i += 1;
            }
        } else {
            i += 1;
        }
    }
    proof {
        if !halted {
            assert(dmodel.skip(n as int) =~= Seq::<(Seq<char>, Seq<Seq<char>>)>::empty());
        }
        assert(spec_scan_desc(dmodel, desc@, None) == acc_model(cur));
    }
    match cur {
        Some(r) => MagicMatch::Description(r.0, r.1),
        None => match mime_lookup(types, mime) {
            Some(exts) => MagicMatch::MIME(mime.to_owned(), exts),
            None => MagicMatch::Unmatched,
        },
    }
}

/// The description extensions reported by the match-info record of a
/// file: those of the rule where the scan stopped — the `?` rule when
/// one halted the scan, else the last matching rule — or `cur` when no
/// rule matched.
pub open spec fn spec_scan_dexts(
    rules: Seq<(Seq<char>, Seq<Seq<char>>)>,
    d: Seq<char>,
    cur: Seq<Seq<char>>,
) -> Seq<Seq<char>>
    decreases rules.len(),
{
    if rules.len() == 0 {
        cur
    } else {
        let r0 = rules[0];
        if regex_matches(r0.0, d) {
            if is_question_list(r0.1) {
                r0.1
            } else {
                spec_scan_dexts(rules.drop_first(), d, r0.1)
            }
        } else {
            spec_scan_dexts(rules.drop_first(), d, cur)
        }
    }
}

/// The extensions of the first description rule that matches, if any.
pub open spec fn spec_first_match_exts(
    rules: Seq<(Seq<char>, Seq<Seq<char>>)>,
    d: Seq<char>,
) -> Seq<Seq<char>>
    decreases rules.len(),
{
    if rules.len() == 0 {
        Seq::empty()
    } else if regex_matches(rules[0].0, d) {
        rules[0].1
    } else {
        spec_first_match_exts(rules.drop_first(), d)
    }
}

/// The media-type extensions reported by the match-info record of a
/// file: the table's list, but only when no description rule decided.
pub open spec fn spec_info_mexts(
    desc_tbl: Seq<(Seq<char>, Seq<Seq<char>>)>,
    mime_tbl: Seq<(Seq<char>, Seq<Seq<char>>)>,
    d: Seq<char>,
    m: Seq<char>,
) -> Seq<Seq<char>> {
    match spec_scan_desc(desc_tbl, d, None) {
        Some(_) => Seq::empty(),
        None => match spec_mime_lookup(mime_tbl, m) {
            Some(e) => e,
            None => Seq::empty(),
        },
    }
}

/// The description and media-type extension lists reported for one file
/// in match-info mode.  A file whose description and media type both
/// came back empty reports two empty lists without any scan.
pub fn match_info_details(desc: &str, mime: &str, types: &Types) -> (r: (Vec<String>, Vec<String>))
    ensures
        desc@.len() == 0 && mime@.len() == 0 ==> r.0.deep_view() == Seq::<Seq<char>>::empty()
            && r.1.deep_view() == Seq::<Seq<char>>::empty(),
        !(desc@.len() == 0 && mime@.len() == 0) ==> {
            &&& r.0.deep_view() == spec_scan_dexts(
                types.desc_view(),
                desc@,
                Seq::<Seq<char>>::empty(),
            )
            &&& r.1.deep_view() == spec_info_mexts(
                types.desc_view(),
                types.mime_view(),
                desc@,
                mime@,
            )
        },
{
    let mut dexts: Vec<String> = Vec::new();
    let mut mexts: Vec<String> = Vec::new();
    proof {
        assert(dexts.deep_view() =~= Seq::<Seq<char>>::empty());
        assert(mexts.deep_view() =~= Seq::<Seq<char>>::empty());
    }
    if desc.unicode_len() == 0 && mime.unicode_len() == 0 {
        return (dexts, mexts);
    }
    let ghost dmodel = types.desc_view();
    let mut cur: Option<(String, Vec<String>)> = None;
    let n = types.desc.len();
    let mut i: usize = 0;
    let mut halted = false;
    proof {
        assert(dmodel.skip(0) =~= dmodel);
    }
    while i < n && !halted
        invariant
            n == types.desc@.len(),
            i <= n,
            dmodel == types.desc_view(),
            !halted ==> spec_scan_desc(dmodel, desc@, None)
                == spec_scan_desc(dmodel.skip(i as int), desc@, acc_model(cur)),
            !halted ==> spec_scan_dexts(dmodel, desc@, Seq::empty())
                == spec_scan_dexts(dmodel.skip(i as int), desc@, dexts.deep_view()),
            halted ==> spec_scan_desc(dmodel, desc@, None) == acc_model(cur),
            halted ==> spec_scan_dexts(dmodel, desc@, Seq::empty()) == dexts.deep_view(),
        decreases n - i, if halted { 0int } else { 1int },
    {
        proof {
            assert(dmodel.skip(i as int).drop_first() =~= dmodel.skip(i + 1));
            assert(dmodel.skip(i as int)[0] == dmodel[i as int]);
        }
        let rule = &types.desc[i];
        if rule.0.is_match(desc) {
            let e = rule.1.clone();
            proof {
                assert(e.deep_view() =~= rule.1.deep_view());
            }
            dexts = e;
            if is_singleton_list(&rule.1, '?') {
                halted = true;
            } else {
                let e2 = rule.1.clone();
                proof {
                    assert(e2.deep_view() =~= rule.1.deep_view());
                }
                cur = Some((rule.0.src_str().to_owned(), e2));
                i += 1;
            }
        } else {
            i += 1;
        }
    }
    proof {
        if !halted {
            assert(dmodel.skip(n as int) =~= Seq::<(Seq<char>, Seq<Seq<char>>)>::empty());
        }
        assert(spec_scan_desc(dmodel, desc@, None) == acc_model(cur));
        assert(spec_scan_dexts(dmodel, desc@, Seq::empty()) == dexts.deep_view());
    }
    if cur.is_none() {
        match mime_lookup(types, mime) {
            Some(e) => {
                mexts = e;
            },
            None => {},
        }
    }
    (dexts, mexts)
}

/// The extensions the media-type table associates with `mime`, if any.
pub fn mime_lookup(types: &Types, mime: &str) -> (r: Option<Vec<String>>)
    ensures
        match r {
            Some(e) => spec_mime_lookup(types.mime_view(), mime@) == Some(e.deep_view()),
            None => spec_mime_lookup(types.mime_view(), mime@) is None,
        },
{
    let m = types.mime.len();
    let mut j: usize = 0;
    proof {
        assert(types.mime_view().skip(0) =~= types.mime_view());
    }
    while j < m
        invariant
            m == types.mime@.len(),
            j <= m,
            spec_mime_lookup(types.mime_view(), mime@)
                == spec_mime_lookup(types.mime_view().skip(j as int), mime@),
        decreases m - j,
    {
        proof {
            assert(types.mime_view().skip(j as int).drop_first()
                =~= types.mime_view().skip(j + 1));
            assert(types.mime_view().skip(j as int)[0] == types.mime_view()[j as int]);
        }
        let entry = &types.mime[j];
        if str_eq(entry.0.as_str(), mime) {
            let exts = entry.1.clone();
            proof {
                assert(exts.deep_view() =~= entry.1.deep_view());
                let tail = types.mime_view().skip(j as int);
                assert(tail[0].0 == mime@);
                assert(spec_mime_lookup(tail, mime@) == Some(tail[0].1));
            }
            return Some(exts);
        }
        j += 1;
    }
    proof {
        assert(types.mime_view().skip(m as int) =~= Seq::<(Seq<char>, Seq<Seq<char>>)>::empty());
    }
    None
}

/// The description and media-type extension lists reported for a
/// directory in match-info mode: the first matching description rule,
/// and the media-type table's list whether or not a description rule
/// matched.
pub fn dir_match_info(desc: &str, mime: &str, types: &Types) -> (r: (Vec<String>, Vec<String>))
    ensures
        r.0.deep_view() == spec_first_match_exts(types.desc_view(), desc@),
        r.1.deep_view() == match spec_mime_lookup(types.mime_view(), mime@) {
            Some(e) => e,
            None => Seq::<Seq<char>>::empty(),
        },
{
    let ghost dmodel = types.desc_view();
    let mut dexts: Vec<String> = Vec::new();
    let n = types.desc.len();
    let mut i: usize = 0;
    let mut found = false;
    proof {
        assert(dmodel.skip(0) =~= dmodel);
        assert(dexts.deep_view() =~= Seq::<Seq<char>>::empty());
    }
    while i < n && !found
        invariant
            n == types.desc@.len(),
            i <= n,
            dmodel == types.desc_view(),
            !found ==> spec_first_match_exts(dmodel, desc@)
                == spec_first_match_exts(dmodel.skip(i as int), desc@),
            !found ==> dexts.deep_view() == Seq::<Seq<char>>::empty(),
            found ==> spec_first_match_exts(dmodel, desc@) == dexts.deep_view(),
        decreases n - i, if found { 0int } else { 1int },
    {
        proof {
            assert(dmodel.skip(i as int).drop_first() =~= dmodel.skip(i + 1));
            assert(dmodel.skip(i as int)[0] == dmodel[i as int]);
        }
        let rule = &types.desc[i];
        if rule.0.is_match(desc) {
            let e = rule.1.clone();
            proof {
                assert(e.deep_view() =~= rule.1.deep_view());
            }
            dexts = e;
            found = true;
        } else {
            i += 1;
        }
    }
    proof {
        if !found {
            assert(dmodel.skip(n as int) =~= Seq::<(Seq<char>, Seq<Seq<char>>)>::empty());
        }
        assert(spec_first_match_exts(dmodel, desc@) == dexts.deep_view());
    }
    let mexts: Vec<String> = match mime_lookup(types, mime) {
        Some(e) => e,
        None => {
            let e: Vec<String> = Vec::new();
            proof {
                assert(e.deep_view() =~= Seq::<Seq<char>>::empty());
            }
            e
        },
    };
    (dexts, mexts)
}

/// The extension list a classification carries; none when unmatched.
pub open spec fn spec_match_exts(m: MatchModel) -> Seq<Seq<char>> {
    match m {
        MatchModel::Description(_, e) => e,
        MatchModel::Mime(_, e) => e,
        MatchModel::Unmatched => Seq::empty(),
    }
}

/// The whole per-file classification: a file whose description and
/// media type both came back empty is unknown without any scan;
/// otherwise the rule table decides.
pub open spec fn spec_match_file(
    desc_tbl: Seq<(Seq<char>, Seq<Seq<char>>)>,
    mime_tbl: Seq<(Seq<char>, Seq<Seq<char>>)>,
    d: Seq<char>,
    m: Seq<char>,
) -> MatchModel {
    if d.len() == 0 && m.len() == 0 {
        MatchModel::Unmatched
    } else {
        spec_classify(desc_tbl, mime_tbl, d, m)
    }
}

/// Classifies one file from what the content inspection returned.
pub fn match_file(desc: &str, mime: &str, types: &Types) -> (r: MagicMatch)
    ensures
        r@ == spec_match_file(types.desc_view(), types.mime_view(), desc@, mime@),
{
    if desc.unicode_len() == 0 && mime.unicode_len() == 0 {
        return MagicMatch::Unmatched;
    }
    match_types(desc, mime, types)
}

/// The extension list and the reported label of one classification: a
/// description match is labelled with the description, a media-type
/// match with the media type, and an unknown file with `(unknown)`.
pub fn match_extensions(m: &MagicMatch, desc: &str, mime: &str) -> (r: (Vec<String>, String))
    ensures
        r.0.deep_view() == spec_match_exts(m@),
        r.1@ == match m@ {
            MatchModel::Description(_, _) => desc@,
            MatchModel::Mime(_, _) => mime@,
            MatchModel::Unmatched => "(unknown)"@,
        },
{
    match m {
        MagicMatch::Description(_, e) => {
            let exts = e.clone();
            proof {
                assert(exts.deep_view() =~= e.deep_view());
            }
            (exts, desc.to_owned())
        },
        MagicMatch::MIME(_, e) => {
            let exts = e.clone();
            proof {
                assert(exts.deep_view() =~= e.deep_view());
            }
            (exts, mime.to_owned())
        },
        MagicMatch::Unmatched => {
            let exts: Vec<String> = Vec::new();
            proof {
                assert(exts.deep_view() =~= Seq::<Seq<char>>::empty());
            }
            (exts, "(unknown)".to_owned())
        },
    }
}

} // verus!
