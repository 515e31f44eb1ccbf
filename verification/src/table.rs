//! Rule-table loading and merging: the two flat-text formats (description
//! rules and media-type rules), the command-line override forms, and the
//! merge that gives overrides scanning priority.

use vstd::prelude::*;
use crate::classify::{desc_model, mime_model, mime_unique, spec_mime_lookup, Types};
use crate::pattern::{regex_ok, Pattern};
use crate::strutil::{
    contains_char, find_char, lemma_split2_len, spec_split, spec_split2, spec_trim, split2,
    str_eq, trim,
};

verus! {

/// What one line of the description-rule source yields: the pattern text
/// and the extension list, or nothing for a blank line, a comment line,
/// or a pattern that does not compile.
pub open spec fn spec_desc_line(line: Seq<char>) -> Option<(Seq<char>, Seq<Seq<char>>)> {
    let l = spec_trim(line);
    if l.len() == 0 || l[0] == '#' {
        None
    } else {
        let splits = spec_split(l, '\t');
        if !regex_ok(splits[0]) {
            None
        } else {
            Some((splits[0], splits.skip(1)))
        }
    }
}

/// What one line of the media-type source yields: the media type and the
/// extension list, or nothing for a blank line, a comment line, an empty
/// type, or a type with no extensions.
pub open spec fn spec_mime_line(line: Seq<char>) -> Option<(Seq<char>, Seq<Seq<char>>)> {
    let l = spec_trim(line);
    if l.len() == 0 || l[0] == '#' {
        None
    } else {
        let splits = spec_split(l, ' ');
        if splits[0].len() == 0 || splits.skip(1).len() == 0 {
            None
        } else {
            Some((splits[0], splits.skip(1)))
        }
    }
}

/// Parses one description-rule line.
pub fn parse_desc_line(line: &str) -> (r: Option<(Pattern, Vec<String>)>)
    ensures
        match r {
            Some(p) => spec_desc_line(line@) == Some((p.0.text(), p.1.deep_view())),
            None => spec_desc_line(line@) is None,
        },
{
    let l = trim(line);
    let llen = l.as_str().unicode_len();
    if llen == 0 || l.as_str().get_char(0) == '#' {
        return None;
    }
    let mut splits = split2(l.as_str(), '\t', '\t');
    proof {
        lemma_split2_len(l@, '\t', '\t');
        assert(splits.deep_view()[0] == spec_split(l@, '\t')[0]);
    }
    let first = splits.remove(0);
    proof {
        assert(splits.deep_view() =~= spec_split(l@, '\t').skip(1));
    }
    match Pattern::new(first.as_str()) {
        Some(p) => Some((p, splits)),
        None => None,
    }
}

/// Parses one media-type line.
pub fn parse_mime_line(line: &str) -> (r: Option<(String, Vec<String>)>)
    ensures
        match r {
            Some(p) => spec_mime_line(line@) == Some((p.0@, p.1.deep_view())),
            None => spec_mime_line(line@) is None,
        },
{
    let l = trim(line);
    let llen = l.as_str().unicode_len();
    if llen == 0 || l.as_str().get_char(0) == '#' {
        return None;
    }
    let mut splits = split2(l.as_str(), ' ', ' ');
    proof {
        lemma_split2_len(l@, ' ', ' ');
        assert(splits.deep_view()[0] == spec_split(l@, ' ')[0]);
    }
    let first = splits.remove(0);
    proof {
        assert(splits.deep_view() =~= spec_split(l@, ' ').skip(1));
    }
    if first.as_str().unicode_len() == 0 {
        return None;
    }
    if splits.len() == 0 {
        return None;
    }
    Some((first, splits))
}

/// Whether a pattern text already occurs in a description table.
pub open spec fn desc_has_pattern(tbl: Seq<(Seq<char>, Seq<Seq<char>>)>, p: Seq<char>) -> bool {
    exists|i: int| 0 <= i < tbl.len() && tbl[i].0 == p
}

/// Executable test for `desc_has_pattern`.
fn desc_contains_pattern(rules: &Vec<(Pattern, Vec<String>)>, p: &str) -> (r: bool)
    ensures
        r == desc_has_pattern(desc_model(rules@), p@),
{
    let n = rules.len();
    let mut i: usize = 0;
    while i < n
        invariant
            n == rules@.len(),
            i <= n,
            forall|k: int| 0 <= k < i ==> desc_model(rules@)[k].0 != p@,
        decreases n - i,
    {
        if str_eq(rules[i].0.src_str(), p) {
            proof {
                assert(desc_model(rules@)[i as int].0 == p@);
            }
            return true;
        }
        i += 1;
    }
    false
}

/// The description table that a sequence of source lines yields: lines
/// are taken in order, and a line whose pattern text was already taken is
/// dropped.
pub open spec fn spec_load_desc(lines: Seq<Seq<char>>) -> Seq<(Seq<char>, Seq<Seq<char>>)>
    decreases lines.len(),
{
    if lines.len() == 0 {
        Seq::empty()
    } else {
        let prev = spec_load_desc(lines.drop_last());
        match spec_desc_line(lines.last()) {
            Some(r) => if desc_has_pattern(prev, r.0) {
                prev
            } else {
                prev.push(r)
            },
            None => prev,
        }
    }
}

/// The media-type table that a sequence of source lines yields: first
/// occurrence of a media type wins, later duplicates are dropped.
pub open spec fn spec_load_mime(lines: Seq<Seq<char>>) -> Seq<(Seq<char>, Seq<Seq<char>>)>
    decreases lines.len(),
{
    if lines.len() == 0 {
        Seq::empty()
    } else {
        let prev = spec_load_mime(lines.drop_last());
        match spec_mime_line(lines.last()) {
            Some(r) => if spec_mime_lookup(prev, r.0) is Some {
                prev
            } else {
                prev.push(r)
            },
            None => prev,
        }
    }
}

/// Loads the description rules from source lines.
pub fn load_desc_rules(lines: &Vec<String>) -> (r: Vec<(Pattern, Vec<String>)>)
    ensures
        desc_model(r@) == spec_load_desc(lines.deep_view()),
{
    let n = lines.len();
    let mut r: Vec<(Pattern, Vec<String>)> = Vec::new();
    let mut i: usize = 0;
    proof {
        assert(lines.deep_view().take(0) =~= Seq::<Seq<char>>::empty());
        assert(desc_model(r@) =~= spec_load_desc(lines.deep_view().take(0)));
    }
    while i < n
        invariant
            n == lines@.len(),
            i <= n,
            desc_model(r@) == spec_load_desc(lines.deep_view().take(i as int)),
        decreases n - i,
    {
        let ghost old_model = desc_model(r@);
        proof {
            assert(lines.deep_view().take(i + 1).drop_last() =~= lines.deep_view().take(i as int));
            assert(lines.deep_view().take(i + 1).last() == lines.deep_view()[i as int]);
        }
        match parse_desc_line(lines[i].as_str()) {
            Some(rule) => {
                if !desc_contains_pattern(&r, rule.0.src_str()) {
                    let ghost rm = (rule.0.text(), rule.1.deep_view());
                    r.push(rule);
                    proof {
                        assert(desc_model(r@) =~= old_model.push(rm));
                    }
                }
            },
            None => {},
        }
        i += 1;
    }
    proof {
        assert(lines.deep_view().take(n as int) =~= lines.deep_view());
    }
    r
}

/// Loads the media-type rules from source lines; the result's keys are
/// unique.
pub fn load_mime_rules(lines: &Vec<String>) -> (r: Vec<(String, Vec<String>)>)
    ensures
        mime_model(r@) == spec_load_mime(lines.deep_view()),
        mime_unique(mime_model(r@)),
{
    let n = lines.len();
    let mut r: Vec<(String, Vec<String>)> = Vec::new();
    let mut i: usize = 0;
    proof {
        assert(lines.deep_view().take(0) =~= Seq::<Seq<char>>::empty());
        assert(mime_model(r@) =~= spec_load_mime(lines.deep_view().take(0)));
    }
    while i < n
        invariant
            n == lines@.len(),
            i <= n,
            mime_model(r@) == spec_load_mime(lines.deep_view().take(i as int)),
            mime_unique(mime_model(r@)),
        decreases n - i,
    {
        let ghost old_model = mime_model(r@);
        proof {
            assert(lines.deep_view().take(i + 1).drop_last() =~= lines.deep_view().take(i as int));
            assert(lines.deep_view().take(i + 1).last() == lines.deep_view()[i as int]);
        }
        match parse_mime_line(lines[i].as_str()) {
            Some(entry) => {
                let ghost em = (entry.0@, entry.1.deep_view());
                match mime_find(&r, entry.0.as_str()) {
                    None => {
                        proof {
                            lemma_mime_lookup_absent(old_model, em.0);
                        }
                        r.push(entry);
                        proof {
                            assert(mime_model(r@) =~= old_model.push(em));
                        }
                    },
                    Some(_) => {
                        proof {
                            lemma_mime_lookup_present(old_model, em.0);
                        }
                    },
                }
            },
            None => {},
        }
        i += 1;
    }
    proof {
        assert(lines.deep_view().take(n as int) =~= lines.deep_view());
    }
    r
}

/// Index of the entry with the given key, if any.
pub fn mime_find(rules: &Vec<(String, Vec<String>)>, key: &str) -> (r: Option<usize>)
    ensures
        match r {
            Some(i) => i < rules@.len() && mime_model(rules@)[i as int].0 == key@
                && forall|k: int| 0 <= k < i ==> mime_model(rules@)[k].0 != key@,
            None => forall|k: int| 0 <= k < rules@.len() ==> mime_model(rules@)[k].0 != key@,
        },
{
    let n = rules.len();
    let mut i: usize = 0;
    while i < n
        invariant
            n == rules@.len(),
            i <= n,
            forall|k: int| 0 <= k < i ==> mime_model(rules@)[k].0 != key@,
        decreases n - i,
    {
        if str_eq(rules[i].0.as_str(), key) {
            proof {
                assert(mime_model(rules@)[i as int].0 == key@);
            }
            return Some(i);
        }
        i += 1;
    }
    None
}

/// Position of the first occurrence of `c` in `s`, if any.
pub open spec fn spec_find(s: Seq<char>, c: char) -> Option<int>
    decreases s.len(),
{
    if s.len() == 0 {
        None
    } else if s[0] == c {
        Some(0)
    } else {
        match spec_find(s.drop_first(), c) {
            Some(i) => Some(i + 1),
            None => None,
        }
    }
}

proof fn lemma_find_first(s: Seq<char>, c: char, i: int)
    requires
        0 <= i < s.len(),
        s[i] == c,
        forall|j: int| 0 <= j < i ==> s[j] != c,
    ensures
        spec_find(s, c) == Some(i),
    decreases i,
{
    if i > 0 {
        let t = s.drop_first();
        assert(forall|j: int| 0 <= j < i - 1 ==> t[j] != c);
        lemma_find_first(t, c, i - 1);
    }
}

proof fn lemma_find_none(s: Seq<char>, c: char)
    requires
        forall|j: int| 0 <= j < s.len() ==> s[j] != c,
    ensures
        spec_find(s, c) is None,
    decreases s.len(),
{
    if s.len() > 0 {
        let t = s.drop_first();
        assert(forall|j: int| 0 <= j < t.len() ==> t[j] != c);
        lemma_find_none(t, c);
    }
}

/// The non-empty parts, in order.
pub open spec fn spec_nonempty(parts: Seq<Seq<char>>) -> Seq<Seq<char>>
    decreases parts.len(),
{
    if parts.len() == 0 {
        Seq::empty()
    } else {
        let r = spec_nonempty(parts.drop_last());
        if parts.last().len() > 0 {
            r.push(parts.last())
        } else {
            r
        }
    }
}

/// Keeps the non-empty strings.
fn filter_nonempty(parts: &Vec<String>) -> (r: Vec<String>)
    ensures
        r.deep_view() == spec_nonempty(parts.deep_view()),
{
    let n = parts.len();
    let mut r: Vec<String> = Vec::new();
    let mut i: usize = 0;
    proof {
        assert(parts.deep_view().take(0) =~= Seq::<Seq<char>>::empty());
        assert(r.deep_view() =~= spec_nonempty(parts.deep_view().take(0)));
    }
    while i < n
        invariant
            n == parts@.len(),
            i <= n,
            r.deep_view() == spec_nonempty(parts.deep_view().take(i as int)),
        decreases n - i,
    {
        let ghost old_deep = r.deep_view();
        proof {
            assert(parts.deep_view().take(i + 1).drop_last()
                =~= parts.deep_view().take(i as int));
            assert(parts.deep_view().take(i + 1).last() == parts.deep_view()[i as int]);
        }
        if parts[i].as_str().unicode_len() > 0 {
            r.push(parts[i].clone());
            proof {
                assert(r.deep_view() =~= old_deep.push(parts.deep_view()[i as int]));
            }
        }
        i += 1;
    }
    proof {
        assert(parts.deep_view().take(n as int) =~= parts.deep_view());
    }
    r
}

/// Why an override string was rejected.
#[derive(Debug, PartialEq, Eq, Structural)]
pub enum OverrideError {
    /// No `=` between the pattern or type and the extension list.
    MissingSeparator,
    /// The pattern of a description override does not compile.
    InvalidPattern,
    /// The type of a media-type override has no `/`.
    MissingSlash,
}

/// The extension list of an override: the text after the separator,
/// split on commas and spaces, empty pieces dropped.
pub open spec fn spec_ov_exts(rest: Seq<char>) -> Seq<Seq<char>> {
    spec_nonempty(spec_split2(rest, ',', ' '))
}

/// What a description override string means: the text before the first
/// `=` is a pattern, the text after it the extension list.
pub open spec fn spec_desc_override(s: Seq<char>) -> Result<
    (Seq<char>, Seq<Seq<char>>),
    OverrideError,
> {
    match spec_find(s, '=') {
        None => Err(OverrideError::MissingSeparator),
        Some(i) => {
            let pat = s.take(i);
            if !regex_ok(pat) {
                Err(OverrideError::InvalidPattern)
            } else {
                Ok((pat, spec_ov_exts(s.skip(i + 1))))
            }
        },
    }
}

/// What a media-type override string means: the text before the first
/// `=` must contain a `/` and names the type.
pub open spec fn spec_mime_override(s: Seq<char>) -> Result<
    (Seq<char>, Seq<Seq<char>>),
    OverrideError,
> {
    match spec_find(s, '=') {
        None => Err(OverrideError::MissingSeparator),
        Some(i) => {
            let key = s.take(i);
            if !key.contains('/') {
                Err(OverrideError::MissingSlash)
            } else {
                Ok((key, spec_ov_exts(s.skip(i + 1))))
            }
        },
    }
}

/// Parses one description override of the form `pattern=ext1,ext2,...`.
pub fn parse_desc_override(s: &str) -> (r: Result<(Pattern, Vec<String>), OverrideError>)
    ensures
        match r {
            Ok(p) => spec_desc_override(s@) == Ok::<_, OverrideError>((
                p.0.text(),
                p.1.deep_view(),
            )),
            Err(e) => spec_desc_override(s@) == Err::<(Seq<char>, Seq<Seq<char>>), _>(e),
        },
{
    let len = s.unicode_len();
    match find_char(s, '=') {
        None => {
            proof {
                lemma_find_none(s@, '=');
            }
            Err(OverrideError::MissingSeparator)
        },
        Some(i) => {
            proof {
                lemma_find_first(s@, '=', i as int);
            }
            let pat_text = s.substring_char(0, i);
            let rest = s.substring_char(i + 1, len);
            match Pattern::new(pat_text) {
                None => Err(OverrideError::InvalidPattern),
                Some(p) => {
                    let splits = split2(rest, ',', ' ');
                    let exts = filter_nonempty(&splits);
                    Ok((p, exts))
                },
            }
        },
    }
}

/// Parses one media-type override of the form `type/subtype=ext1,ext2,...`.
pub fn parse_mime_override(s: &str) -> (r: Result<(String, Vec<String>), OverrideError>)
    ensures
        match r {
            Ok(p) => spec_mime_override(s@) == Ok::<_, OverrideError>((p.0@, p.1.deep_view())),
            Err(e) => spec_mime_override(s@) == Err::<(Seq<char>, Seq<Seq<char>>), _>(e),
        },
{
    let len = s.unicode_len();
    match find_char(s, '=') {
        None => {
            proof {
                lemma_find_none(s@, '=');
            }
            Err(OverrideError::MissingSeparator)
        },
        Some(i) => {
            proof {
                lemma_find_first(s@, '=', i as int);
            }
            let key = s.substring_char(0, i).to_owned();
            let rest = s.substring_char(i + 1, len);
            if !contains_char(key.as_str(), '/') {
                return Err(OverrideError::MissingSlash);
            }
            let splits = split2(rest, ',', ' ');
            let exts = filter_nonempty(&splits);
            Ok((key, exts))
        },
    }
}

proof fn lemma_mime_lookup_update(
    tbl: Seq<(Seq<char>, Seq<Seq<char>>)>,
    j: int,
    v: (Seq<char>, Seq<Seq<char>>),
    k2: Seq<char>,
)
    requires
        0 <= j < tbl.len(),
        tbl[j].0 == v.0,
        forall|i: int| 0 <= i < j ==> tbl[i].0 != v.0,
    ensures
        spec_mime_lookup(tbl.update(j, v), k2) == if k2 == v.0 {
            Some(v.1)
        } else {
            spec_mime_lookup(tbl, k2)
        },
    decreases j,
{
    let u = tbl.update(j, v);
    if j == 0 {
        assert(u[0] == v);
        assert(u.drop_first() =~= tbl.drop_first());
    } else {
        assert(u[0] == tbl[0]);
        assert(u.drop_first() =~= tbl.drop_first().update(j - 1, v));
        assert(forall|i: int| 0 <= i < j - 1 ==> tbl.drop_first()[i].0 != v.0);
        lemma_mime_lookup_update(tbl.drop_first(), j - 1, v, k2);
    }
}

proof fn lemma_mime_lookup_push(
    tbl: Seq<(Seq<char>, Seq<Seq<char>>)>,
    v: (Seq<char>, Seq<Seq<char>>),
    k2: Seq<char>,
)
    ensures
        spec_mime_lookup(tbl.push(v), k2) == if spec_mime_lookup(tbl, k2) is Some {
            spec_mime_lookup(tbl, k2)
        } else if k2 == v.0 {
            Some(v.1)
        } else {
            spec_mime_lookup(Seq::empty(), k2)
        },
    decreases tbl.len(),
{
    let u = tbl.push(v);
    if tbl.len() == 0 {
        assert(u[0] == v);
        assert(u.drop_first() =~= Seq::<(Seq<char>, Seq<Seq<char>>)>::empty());
    } else {
        assert(u[0] == tbl[0]);
        assert(u.drop_first() =~= tbl.drop_first().push(v));
        lemma_mime_lookup_push(tbl.drop_first(), v, k2);
    }
}

/// Inserts or replaces the entry for `key`, as a map write would.
pub fn mime_insert(tbl: &mut Vec<(String, Vec<String>)>, key: String, exts: Vec<String>)
    requires
        mime_unique(mime_model(old(tbl)@)),
    ensures
        mime_unique(mime_model(final(tbl)@)),
        spec_mime_lookup(mime_model(final(tbl)@), key@) == Some(exts.deep_view()),
        forall|k2: Seq<char>| k2 != key@ ==> spec_mime_lookup(mime_model(final(tbl)@), k2)
            == spec_mime_lookup(mime_model(old(tbl)@), k2),
{
    let ghost old_model = mime_model(tbl@);
    let ghost em = (key@, exts.deep_view());
    match mime_find(tbl, key.as_str()) {
        Some(j) => {
            let _ = tbl.remove(j);
            tbl.insert(j, (key, exts));
            proof {
                assert(mime_model(tbl@) =~= old_model.update(j as int, em));
                lemma_mime_lookup_update(old_model, j as int, em, em.0);
                assert forall|k2: Seq<char>| k2 != em.0 implies spec_mime_lookup(
                    mime_model(tbl@),
                    k2,
                ) == spec_mime_lookup(old_model, k2) by {
                    lemma_mime_lookup_update(old_model, j as int, em, k2);
                }
            }
        },
        None => {
            proof {
                lemma_mime_lookup_absent(old_model, em.0);
            }
            tbl.push((key, exts));
            proof {
                assert(mime_model(tbl@) =~= old_model.push(em));
                lemma_mime_lookup_push(old_model, em, em.0);
                assert forall|k2: Seq<char>| k2 != em.0 implies spec_mime_lookup(
                    mime_model(tbl@),
                    k2,
                ) == spec_mime_lookup(old_model, k2) by {
                    lemma_mime_lookup_push(old_model, em, k2);
                }
            }
        },
    }
}

/// What a list of overrides, applied in order, yields for a key: the
/// last override with this key, if any.
pub open spec fn spec_ov_lookup(
    ovs: Seq<(Seq<char>, Seq<Seq<char>>)>,
    k: Seq<char>,
) -> Option<Seq<Seq<char>>>
    decreases ovs.len(),
{
    if ovs.len() == 0 {
        None
    } else if ovs.last().0 == k {
        Some(ovs.last().1)
    } else {
        spec_ov_lookup(ovs.drop_last(), k)
    }
}

/// Applies the parsed media-type overrides, in order, to the table.
pub fn apply_mime_overrides(tbl: &mut Vec<(String, Vec<String>)>, ovs: &Vec<(String, Vec<String>)>)
    requires
        mime_unique(mime_model(old(tbl)@)),
    ensures
        mime_unique(mime_model(final(tbl)@)),
        forall|k: Seq<char>| spec_mime_lookup(mime_model(final(tbl)@), k) == match spec_ov_lookup(
            mime_model(ovs@),
            k,
        ) {
            Some(e) => Some(e),
            None => spec_mime_lookup(mime_model(old(tbl)@), k),
        },
{
    let ghost base = mime_model(tbl@);
    let n = ovs.len();
    let mut i: usize = 0;
    proof {
        assert(mime_model(ovs@).take(0) =~= Seq::<(Seq<char>, Seq<Seq<char>>)>::empty());
    }
    while i < n
        invariant
            n == ovs@.len(),
            i <= n,
            mime_unique(mime_model(tbl@)),
            forall|k: Seq<char>| spec_mime_lookup(mime_model(tbl@), k) == match spec_ov_lookup(
                mime_model(ovs@).take(i as int),
                k,
            ) {
                Some(e) => Some(e),
                None => spec_mime_lookup(base, k),
            },
        decreases n - i,
    {
        let ghost before = mime_model(tbl@);
        let key = ovs[i].0.clone();
        let exts = ovs[i].1.clone();
        proof {
            assert(key@ == mime_model(ovs@)[i as int].0);
            assert(exts.deep_view() =~= ovs@[i as int].1.deep_view());
        }
        mime_insert(tbl, key, exts);
        proof {
            let ovm = mime_model(ovs@);
            assert(ovm.take(i + 1).drop_last() =~= ovm.take(i as int));
            assert(ovm.take(i + 1).last() == ovm[i as int]);
        }
        i += 1;
    }
    proof {
        assert(mime_model(ovs@).take(n as int) =~= mime_model(ovs@));
    }
}

proof fn lemma_reverse_drop_first<A>(s: Seq<A>)
    requires
        s.len() > 0,
    ensures
        s.reverse() =~= s.drop_first().reverse().push(s[0]),
{
}

/// Reverses the parsed description overrides and puts them ahead of the
/// built-in rules: the override given last on the command line is
/// scanned first, and every override is scanned before any built-in.
pub fn merge_desc(
    overrides: Vec<(Pattern, Vec<String>)>,
    builtin: Vec<(Pattern, Vec<String>)>,
) -> (r: Vec<(Pattern, Vec<String>)>)
    ensures
        desc_model(r@) == desc_model(overrides@).reverse() + desc_model(builtin@),
{
    let ghost ov0 = overrides@;
    let mut ovs = overrides;
    let mut out: Vec<(Pattern, Vec<String>)> = Vec::new();
    proof {
        assert(ovs@ =~= ov0.take(ovs@.len() as int));
        assert(ov0.skip(ov0.len() as int) =~= Seq::<(Pattern, Vec<String>)>::empty());
        assert(desc_model(out@) =~= desc_model(ov0.skip(ovs@.len() as int)).reverse());
    }
    while ovs.len() > 0
        invariant
            ovs@.len() <= ov0.len(),
            ovs@ == ov0.take(ovs@.len() as int),
            desc_model(out@) == desc_model(ov0.skip(ovs@.len() as int)).reverse(),
        decreases ovs@.len(),
    {
        let ghost k = ovs@.len() as int;
        let x = ovs.pop().unwrap();
        let ghost xm = (x.0.text(), x.1.deep_view());
        let ghost old_out = desc_model(out@);
        out.push(x);
        proof {
            assert(ovs@ =~= ov0.take(k - 1));
            assert(xm == desc_model(ov0)[k - 1]);
            let sk1 = desc_model(ov0.skip(k - 1));
            let skk = desc_model(ov0.skip(k));
            assert(sk1.len() > 0);
            assert(sk1[0] == xm);
            assert(sk1.drop_first() =~= skk);
            lemma_reverse_drop_first(sk1);
            assert(sk1.reverse() =~= skk.reverse().push(xm));
            assert(desc_model(out@) =~= old_out.push(xm));
        }
    }
    proof {
        assert(ov0.skip(0) =~= ov0);
    }
    let ghost b0 = builtin@;
    let mut tail = builtin;
    out.append(&mut tail);
    proof {
        assert(desc_model(out@) =~= desc_model(ov0).reverse() + desc_model(b0));
    }
    out
}

/// The table that a list of valid description overrides yields, in
/// command order.
pub open spec fn spec_desc_ov_table(ovs: Seq<Seq<char>>) -> Seq<(Seq<char>, Seq<Seq<char>>)>
    decreases ovs.len(),
{
    if ovs.len() == 0 {
        Seq::empty()
    } else {
        spec_desc_ov_table(ovs.drop_last()).push(spec_desc_override(ovs.last()).unwrap())
    }
}

/// The table that a list of valid media-type overrides yields, in
/// command order.
pub open spec fn spec_mime_ov_table(ovs: Seq<Seq<char>>) -> Seq<(Seq<char>, Seq<Seq<char>>)>
    decreases ovs.len(),
{
    if ovs.len() == 0 {
        Seq::empty()
    } else {
        spec_mime_ov_table(ovs.drop_last()).push(spec_mime_override(ovs.last()).unwrap())
    }
}

/// Every description override in the list is well-formed.
pub open spec fn all_desc_ov_ok(ovs: Seq<Seq<char>>) -> bool {
    forall|i: int| 0 <= i < ovs.len() ==> (#[trigger] spec_desc_override(ovs[i])) is Ok
}

/// Every media-type override in the list is well-formed.
pub open spec fn all_mime_ov_ok(ovs: Seq<Seq<char>>) -> bool {
    forall|i: int| 0 <= i < ovs.len() ==> (#[trigger] spec_mime_override(ovs[i])) is Ok
}

/// `e` is the error of the first malformed description override.
pub open spec fn first_bad_desc_ov(ovs: Seq<Seq<char>>, e: OverrideError) -> bool {
    exists|i: int|
        0 <= i < ovs.len()
        && (#[trigger] spec_desc_override(ovs[i]))
            == Err::<(Seq<char>, Seq<Seq<char>>), OverrideError>(e)
        && (forall|j: int| 0 <= j < i ==> (#[trigger] spec_desc_override(ovs[j])) is Ok)
}

/// `e` is the error of the first malformed media-type override.
pub open spec fn first_bad_mime_ov(ovs: Seq<Seq<char>>, e: OverrideError) -> bool {
    exists|i: int|
        0 <= i < ovs.len()
        && (#[trigger] spec_mime_override(ovs[i]))
            == Err::<(Seq<char>, Seq<Seq<char>>), OverrideError>(e)
        && (forall|j: int| 0 <= j < i ==> (#[trigger] spec_mime_override(ovs[j])) is Ok)
}

/// Builds the rule table used for a whole run.  Description overrides
/// are prepended, in reverse command order, to the built-in description
/// rules, so every override is scanned before any built-in; media-type
/// overrides are written into the built-in media-type map, the last
/// write for a key winning.  A malformed override is reported before
/// anything else happens, and nothing is built.
pub fn build_types(
    builtin_desc: Vec<(Pattern, Vec<String>)>,
    builtin_mime: Vec<(String, Vec<String>)>,
    ovdesc: &Vec<String>,
    ovmime: &Vec<String>,
) -> (r: Result<Types, OverrideError>)
    requires
        mime_unique(mime_model(builtin_mime@)),
    ensures
        match r {
            Ok(t) => {
                &&& all_desc_ov_ok(ovdesc.deep_view())
                &&& all_mime_ov_ok(ovmime.deep_view())
                &&& t.desc_view() == spec_desc_ov_table(ovdesc.deep_view()).reverse()
                    + desc_model(builtin_desc@)
                &&& t.mime_keys_unique()
                &&& forall|k: Seq<char>| spec_mime_lookup(t.mime_view(), k) == match spec_ov_lookup(
                    spec_mime_ov_table(ovmime.deep_view()),
                    k,
                ) {
                    Some(e) => Some(e),
                    None => spec_mime_lookup(mime_model(builtin_mime@), k),
                }
            },
            Err(e) => first_bad_desc_ov(ovdesc.deep_view(), e) || (all_desc_ov_ok(
                ovdesc.deep_view(),
            ) && first_bad_mime_ov(ovmime.deep_view(), e)),
        },
{
    let nd = ovdesc.len();
    let mut dov: Vec<(Pattern, Vec<String>)> = Vec::new();
    let mut i: usize = 0;
    proof {
        assert(ovdesc.deep_view().take(0) =~= Seq::<Seq<char>>::empty());
        assert(desc_model(dov@) =~= spec_desc_ov_table(ovdesc.deep_view().take(0)));
    }
    while i < nd
        invariant
            nd == ovdesc@.len(),
            i <= nd,
            desc_model(dov@) == spec_desc_ov_table(ovdesc.deep_view().take(i as int)),
            forall|j: int| 0 <= j < i ==> spec_desc_override(ovdesc.deep_view()[j]) is Ok,
        decreases nd - i,
    {
        let ghost old_model = desc_model(dov@);
        proof {
            assert(ovdesc.deep_view().take(i + 1).drop_last()
                =~= ovdesc.deep_view().take(i as int));
            assert(ovdesc.deep_view().take(i + 1).last() == ovdesc.deep_view()[i as int]);
        }
        match parse_desc_override(ovdesc[i].as_str()) {
            Ok(p) => {
                let ghost pm = (p.0.text(), p.1.deep_view());
                dov.push(p);
                proof {
                    assert(desc_model(dov@) =~= old_model.push(pm));
                }
            },
            Err(e) => {
                return Err(e);
            },
        }
        i += 1;
    }
    proof {
        assert(ovdesc.deep_view().take(nd as int) =~= ovdesc.deep_view());
    }
    let nm = ovmime.len();
    let mut mov: Vec<(String, Vec<String>)> = Vec::new();
    let mut j: usize = 0;
    proof {
        assert(ovmime.deep_view().take(0) =~= Seq::<Seq<char>>::empty());
        assert(mime_model(mov@) =~= spec_mime_ov_table(ovmime.deep_view().take(0)));
    }
    while j < nm
        invariant
            nm == ovmime@.len(),
            j <= nm,
            mime_model(mov@) == spec_mime_ov_table(ovmime.deep_view().take(j as int)),
            forall|k: int| 0 <= k < j ==> spec_mime_override(ovmime.deep_view()[k]) is Ok,
            forall|k: int| 0 <= k < ovdesc.deep_view().len()
                ==> spec_desc_override(ovdesc.deep_view()[k]) is Ok,
        decreases nm - j,
    {
        let ghost old_model = mime_model(mov@);
        proof {
            assert(ovmime.deep_view().take(j + 1).drop_last()
                =~= ovmime.deep_view().take(j as int));
            assert(ovmime.deep_view().take(j + 1).last() == ovmime.deep_view()[j as int]);
        }
        match parse_mime_override(ovmime[j].as_str()) {
            Ok(p) => {
                let ghost pm = (p.0@, p.1.deep_view());
                mov.push(p);
                proof {
                    assert(mime_model(mov@) =~= old_model.push(pm));
                }
            },
            Err(e) => {
                return Err(e);
            },
        }
        j += 1;
    }
    proof {
        assert(ovmime.deep_view().take(nm as int) =~= ovmime.deep_view());
    }
    let desc = merge_desc(dov, builtin_desc);
    let mut mime = builtin_mime;
    apply_mime_overrides(&mut mime, &mov);
    Ok(Types { desc, mime })
}

/// A key that matches some entry looks up to something.
pub proof fn lemma_mime_lookup_present(tbl: Seq<(Seq<char>, Seq<Seq<char>>)>, key: Seq<char>)
    requires
        exists|k: int| 0 <= k < tbl.len() && tbl[k].0 == key,
    ensures
        spec_mime_lookup(tbl, key) is Some,
    decreases tbl.len(),
{
    if tbl.len() > 0 && tbl[0].0 != key {
        let k = choose|k: int| 0 <= k < tbl.len() && tbl[k].0 == key;
        assert(tbl.drop_first()[k - 1].0 == key);
        lemma_mime_lookup_present(tbl.drop_first(), key);
    }
}

/// A key that matches no entry looks up to nothing.
pub proof fn lemma_mime_lookup_absent(tbl: Seq<(Seq<char>, Seq<Seq<char>>)>, key: Seq<char>)
    requires
        forall|k: int| 0 <= k < tbl.len() ==> tbl[k].0 != key,
    ensures
        spec_mime_lookup(tbl, key) is None,
    decreases tbl.len(),
{
    if tbl.len() > 0 {
        assert(forall|k: int| 0 <= k < tbl.drop_first().len() ==> tbl.drop_first()[k].0 != key);
        lemma_mime_lookup_absent(tbl.drop_first(), key);
    }
}

} // verus!
