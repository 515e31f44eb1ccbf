//! Character-level string utilities: equality, search, splitting on
//! separator characters, joining, and whitespace trimming, each specified
//! over `Seq<char>` views.

use vstd::prelude::*;

verus! {

/// Exact character-wise equality of two string slices.
pub fn str_eq(a: &str, b: &str) -> (r: bool)
    ensures
        r == (a@ == b@),
{
    let alen = a.unicode_len();
    let blen = b.unicode_len();
    if alen != blen {
        return false;
    }
    let mut i: usize = 0;
    while i < alen
        invariant
            alen == a@.len(),
            blen == b@.len(),
            alen == blen,
            i <= alen,
            forall|j: int| 0 <= j < i ==> a@[j] == b@[j],
        decreases alen - i,
    {
        if a.get_char(i) != b.get_char(i) {
            assert(a@ != b@) by {
                assert(a@[i as int] != b@[i as int]);
            }
            return false;
        }
        i += 1;
    }
    proof {
        assert(a@ =~= b@);
    }
    true
}

/// Relies on `String::push`: appends exactly the given character.
#[verifier::external_body]
pub fn push_char(s: &mut String, c: char)
    ensures
        final(s)@ == old(s)@.push(c),
{
    s.push(c);
}

/// Index of the first occurrence of `c` in `s`, if any.
pub fn find_char(s: &str, c: char) -> (r: Option<usize>)
    ensures
        match r {
            Some(i) => i < s@.len() && s@[i as int] == c && forall|j: int|
                0 <= j < i ==> s@[j] != c,
            None => forall|j: int| 0 <= j < s@.len() ==> s@[j] != c,
        },
{
    let len = s.unicode_len();
    let mut i: usize = 0;
    while i < len
        invariant
            len == s@.len(),
            i <= len,
            forall|j: int| 0 <= j < i ==> s@[j] != c,
        decreases len - i,
    {
        if s.get_char(i) == c {
            return Some(i);
        }
        i += 1;
    }
    None
}

/// Whether `c` occurs in `s`.
pub fn contains_char(s: &str, c: char) -> (r: bool)
    ensures
        r == s@.contains(c),
{
    match find_char(s, c) {
        Some(i) => {
            proof {
                assert(s@[i as int] == c);
            }
            true
        },
        None => {
            proof {
                assert(!s@.contains(c)) by {
                    if s@.contains(c) {
                        let j = choose|j: int| 0 <= j < s@.len() && s@[j] == c;
                        assert(s@[j] != c);
                    }
                }
            }
            false
        },
    }
}

/// Separator test used by the two-character split.
pub open spec fn is_sep2(c: char, c1: char, c2: char) -> bool {
    c == c1 || c == c2
}

/// Split on either of two separator characters, by recursion on the end of
/// the string.  The result always holds at least one part and no part
/// contains a separator; joining the parts with the separator restores the
/// input (single-separator case).
pub open spec fn spec_split2(s: Seq<char>, c1: char, c2: char) -> Seq<Seq<char>>
    decreases s.len(),
{
    if s.len() == 0 {
        seq![Seq::<char>::empty()]
    } else if is_sep2(s.last(), c1, c2) {
        spec_split2(s.drop_last(), c1, c2).push(Seq::<char>::empty())
    } else {
        let r = spec_split2(s.drop_last(), c1, c2);
        r.update(r.len() - 1, r.last().push(s.last()))
    }
}

/// Split on a single separator character.
pub open spec fn spec_split(s: Seq<char>, c: char) -> Seq<Seq<char>> {
    spec_split2(s, c, c)
}

/// Join parts with a separator character, by recursion on the end.
pub open spec fn spec_join(parts: Seq<Seq<char>>, c: char) -> Seq<char>
    decreases parts.len(),
{
    if parts.len() == 0 {
        Seq::<char>::empty()
    } else if parts.len() == 1 {
        parts[0]
    } else {
        spec_join(parts.drop_last(), c) + seq![c] + parts.last()
    }
}

pub proof fn lemma_split2_len(s: Seq<char>, c1: char, c2: char)
    ensures
        spec_split2(s, c1, c2).len() >= 1,
    decreases s.len(),
{
    if s.len() > 0 {
        lemma_split2_len(s.drop_last(), c1, c2);
    }
}

/// No part produced by the split contains a separator character.
pub proof fn lemma_split2_parts_sep_free(s: Seq<char>, c1: char, c2: char)
    ensures
        forall|i: int, k: int|
            0 <= i < spec_split2(s, c1, c2).len() && 0 <= k < spec_split2(s, c1, c2)[i].len()
                ==> !is_sep2(spec_split2(s, c1, c2)[i][k], c1, c2),
    decreases s.len(),
{
    if s.len() > 0 {
        lemma_split2_parts_sep_free(s.drop_last(), c1, c2);
        lemma_split2_len(s.drop_last(), c1, c2);
    }
}

/// Joining the single-separator split restores the input string.
pub proof fn lemma_join_split_id(s: Seq<char>, c: char)
    ensures
        spec_join(spec_split(s, c), c) == s,
    decreases s.len(),
{
    if s.len() > 0 {
        let prev = s.drop_last();
        lemma_join_split_id(prev, c);
        lemma_split2_len(prev, c, c);
        let r = spec_split2(prev, c, c);
        if s.last() == c {
            let pushed = r.push(Seq::<char>::empty());
            assert(pushed.drop_last() =~= r);
            assert(spec_join(pushed, c) =~= prev + seq![c]);
            assert(prev + seq![c] =~= s);
        } else {
            let upd = r.update(r.len() - 1, r.last().push(s.last()));
            if r.len() == 1 {
                assert(spec_join(upd, c) == upd[0]);
                assert(upd[0] =~= r[0].push(s.last()));
                assert(r[0] == spec_join(r, c));
                assert(spec_join(r, c).push(s.last()) =~= s);
            } else {
                assert(upd.drop_last() =~= r.drop_last());
                assert(upd.last() == r.last().push(s.last()));
                assert(spec_join(upd, c)
                    == spec_join(r.drop_last(), c) + seq![c] + r.last().push(s.last()));
                assert(spec_join(r.drop_last(), c) + seq![c] + r.last().push(s.last())
                    =~= (spec_join(r.drop_last(), c) + seq![c] + r.last()).push(s.last()));
                assert((spec_join(r, c)).push(s.last()) =~= s);
            }
        }
    }
}

/// Splitting distributes over a separator: the split of `x + [c] + y`
/// is the split of `x` followed by the split of `y`.
pub proof fn lemma_split2_concat(x: Seq<char>, y: Seq<char>, c: char, c1: char, c2: char)
    requires
        is_sep2(c, c1, c2),
    ensures
        spec_split2(x + seq![c] + y, c1, c2) == spec_split2(x, c1, c2) + spec_split2(y, c1, c2),
    decreases y.len(),
{
    let s = x + seq![c] + y;
    if y.len() == 0 {
        assert(s.len() == x.len() + 1);
        assert(s.last() == c);
        assert(s.drop_last() =~= x);
        assert(spec_split2(s, c1, c2) == spec_split2(x, c1, c2).push(Seq::<char>::empty()));
        assert(spec_split2(y, c1, c2) == seq![Seq::<char>::empty()]);
        assert(spec_split2(x, c1, c2).push(Seq::<char>::empty())
            =~= spec_split2(x, c1, c2) + seq![Seq::<char>::empty()]);
    } else {
        lemma_split2_concat(x, y.drop_last(), c, c1, c2);
        assert(s.len() > 0);
        assert(s.last() == y.last());
        assert(s.drop_last() =~= x + seq![c] + y.drop_last());
        let rx = spec_split2(x, c1, c2);
        let ry = spec_split2(y.drop_last(), c1, c2);
        lemma_split2_len(x, c1, c2);
        lemma_split2_len(y.drop_last(), c1, c2);
        if is_sep2(y.last(), c1, c2) {
            assert(spec_split2(s, c1, c2) == (rx + ry).push(Seq::<char>::empty()));
            assert((rx + ry).push(Seq::<char>::empty())
                =~= rx + ry.push(Seq::<char>::empty()));
        } else {
            let r = rx + ry;
            assert(spec_split2(s, c1, c2) == r.update(r.len() - 1, r.last().push(y.last())));
            assert(r.last() == ry.last());
            assert(r.update(r.len() - 1, r.last().push(y.last()))
                =~= rx + ry.update(ry.len() - 1, ry.last().push(y.last())));
        }
    }
}

/// A string free of separators splits into itself alone.
pub proof fn lemma_split2_sep_free(s: Seq<char>, c1: char, c2: char)
    requires
        forall|k: int| 0 <= k < s.len() ==> !is_sep2(s[k], c1, c2),
    ensures
        spec_split2(s, c1, c2) == seq![s],
    decreases s.len(),
{
    if s.len() == 0 {
        assert(s =~= Seq::<char>::empty());
        assert(seq![Seq::<char>::empty()] =~= seq![s]);
    } else {
        assert(forall|k: int| 0 <= k < s.drop_last().len() ==> !is_sep2(s.drop_last()[k], c1, c2));
        lemma_split2_sep_free(s.drop_last(), c1, c2);
        assert(!is_sep2(s.last(), c1, c2));
        let r = seq![s.drop_last()];
        assert(r.update(0, r[0].push(s.last())) =~= seq![s.drop_last().push(s.last())]);
        assert(s.drop_last().push(s.last()) =~= s);
    }
}

/// Splitting the join of separator-free parts restores the parts.
pub proof fn lemma_split_join_id(parts: Seq<Seq<char>>, c: char)
    requires
        parts.len() >= 1,
        forall|i: int, k: int| 0 <= i < parts.len() && 0 <= k < parts[i].len()
            ==> parts[i][k] != c,
    ensures
        spec_split(spec_join(parts, c), c) == parts,
    decreases parts.len(),
{
    if parts.len() == 1 {
        assert(forall|k: int| 0 <= k < parts[0].len() ==> !is_sep2(parts[0][k], c, c));
        lemma_split2_sep_free(parts[0], c, c);
        assert(seq![parts[0]] =~= parts);
    } else {
        let front = parts.drop_last();
        assert(forall|i: int, k: int| 0 <= i < front.len() && 0 <= k < front[i].len()
            ==> front[i][k] != c);
        lemma_split_join_id(front, c);
        assert(forall|k: int| 0 <= k < parts.last().len() ==> !is_sep2(parts.last()[k], c, c));
        lemma_split2_sep_free(parts.last(), c, c);
        lemma_split2_concat(spec_join(front, c), parts.last(), c, c, c);
        assert(spec_split(spec_join(parts, c), c) == front + seq![parts.last()]);
        assert(front + seq![parts.last()] =~= parts);
    }
}

/// The join of parts equals the join of any front portion, a separator,
/// and the join of the remaining portion.
pub proof fn lemma_join_take_skip(parts: Seq<Seq<char>>, c: char, k: int)
    requires
        1 <= k < parts.len(),
    ensures
        spec_join(parts, c) == spec_join(parts.take(k), c) + seq![c] + spec_join(parts.skip(k), c),
    decreases parts.len(),
{
    if k == parts.len() - 1 {
        assert(parts.take(k) =~= parts.drop_last());
        assert(parts.skip(k) =~= seq![parts.last()]);
        assert(spec_join(parts.skip(k), c) == parts.last());
    } else {
        let front = parts.drop_last();
        lemma_join_take_skip(front, c, k);
        assert(front.take(k) =~= parts.take(k));
        assert(parts.skip(k).len() >= 2);
        assert(parts.skip(k).drop_last() =~= front.skip(k));
        assert(parts.skip(k).last() == parts.last());
        assert(spec_join(parts.skip(k), c)
            == spec_join(front.skip(k), c) + seq![c] + parts.last());
        assert(spec_join(parts.take(k), c) + seq![c]
            + (spec_join(front.skip(k), c) + seq![c] + parts.last())
            =~= (spec_join(parts.take(k), c) + seq![c] + spec_join(front.skip(k), c))
                + seq![c] + parts.last());
    }
}

/// ASCII whitespace, as the rule-table sources use it.
pub open spec fn is_space_char(c: char) -> bool {
    c == ' ' || c == '\t' || c == '\n' || c == '\r' || c == '\u{b}' || c == '\u{c}'
}

/// Executable test for `is_space_char`.
pub fn is_space(c: char) -> (r: bool)
    ensures
        r == is_space_char(c),
{
    c == ' ' || c == '\t' || c == '\n' || c == '\r' || c == '\u{b}' || c == '\u{c}'
}

/// Remove leading whitespace.
pub open spec fn spec_trim_start(s: Seq<char>) -> Seq<char>
    decreases s.len(),
{
    if s.len() == 0 {
        s
    } else if is_space_char(s[0]) {
        spec_trim_start(s.drop_first())
    } else {
        s
    }
}

/// Remove trailing whitespace.
pub open spec fn spec_trim_end(s: Seq<char>) -> Seq<char>
    decreases s.len(),
{
    if s.len() == 0 {
        s
    } else if is_space_char(s.last()) {
        spec_trim_end(s.drop_last())
    } else {
        s
    }
}

/// Remove whitespace from both ends.
pub open spec fn spec_trim(s: Seq<char>) -> Seq<char> {
    spec_trim_end(spec_trim_start(s))
}

proof fn lemma_trim_start_skip(s: Seq<char>, a: int)
    requires
        0 <= a <= s.len(),
        forall|j: int| 0 <= j < a ==> is_space_char(s[j]),
        a < s.len() ==> !is_space_char(s[a]),
    ensures
        spec_trim_start(s) == s.skip(a),
    decreases a,
{
    if a == 0 {
        assert(s.skip(0) =~= s);
    } else {
        let t = s.drop_first();
        assert(forall|j: int| 0 <= j < a - 1 ==> is_space_char(t[j]));
        lemma_trim_start_skip(t, a - 1);
        assert(t.skip(a - 1) =~= s.skip(a));
    }
}

proof fn lemma_trim_end_take(s: Seq<char>, b: int)
    requires
        0 <= b <= s.len(),
        forall|j: int| b <= j < s.len() ==> is_space_char(s[j]),
        b > 0 ==> !is_space_char(s[b - 1]),
    ensures
        spec_trim_end(s) == s.take(b),
    decreases s.len(),
{
    if b == s.len() {
        if s.len() == 0 {
            assert(s.take(0) =~= s);
        } else {
            assert(s.take(b) =~= s);
        }
    } else {
        let t = s.drop_last();
        assert(is_space_char(s.last()));
        assert(forall|j: int| b <= j < t.len() ==> is_space_char(t[j]));
        lemma_trim_end_take(t, b);
        assert(t.take(b) =~= s.take(b));
    }
}

/// Returns `s` with leading and trailing whitespace removed.
pub fn trim(s: &str) -> (r: String)
    ensures
        r@ == spec_trim(s@),
{
    let len = s.unicode_len();
    let mut a: usize = 0;
    while a < len && is_space(s.get_char(a))
        invariant
            len == s@.len(),
            a <= len,
            forall|j: int| 0 <= j < a ==> is_space_char(s@[j]),
        decreases len - a,
    {
        a += 1;
    }
    proof {
        lemma_trim_start_skip(s@, a as int);
    }
    let mut b: usize = len;
    while b > a && is_space(s.get_char(b - 1))
        invariant
            len == s@.len(),
            a <= b <= len,
            forall|j: int| b <= j < len ==> is_space_char(s@[j]),
        decreases b,
    {
        b -= 1;
    }
    proof {
        let t = s@.skip(a as int);
        assert(forall|j: int| b - a <= j < t.len() ==> is_space_char(t[j]));
        lemma_trim_end_take(t, b - a);
    }
    let r = s.substring_char(a, b).to_owned();
    proof {
        assert(s@.subrange(a as int, b as int) =~= s@.skip(a as int).take(b - a));
    }
    r
}

/// Splits `s` at every occurrence of `c1` or `c2`.
pub fn split2(s: &str, c1: char, c2: char) -> (r: Vec<String>)
    ensures
        r.deep_view() == spec_split2(s@, c1, c2),
{
    let len = s.unicode_len();
    let mut r: Vec<String> = Vec::new();
    let mut start: usize = 0;
    let mut i: usize = 0;
    proof {
        assert(s@.subrange(0, 0) =~= Seq::<char>::empty());
        assert(r.deep_view().push(s@.subrange(0, 0)) =~= seq![Seq::<char>::empty()]);
    }
    while i < len
        invariant
            len == s@.len(),
            start <= i <= len,
            r.deep_view().push(s@.subrange(start as int, i as int))
                == spec_split2(s@.subrange(0, i as int), c1, c2),
        decreases len - i,
    {
        let ch = s.get_char(i);
        proof {
            assert(s@.subrange(0, i + 1).drop_last() =~= s@.subrange(0, i as int));
            assert(s@.subrange(0, i + 1).last() == s@[i as int]);
        }
        let ghost old_deep = r.deep_view();
        let ghost old_start = start as int;
        if ch == c1 || ch == c2 {
            let part = s.substring_char(start, i).to_owned();
            r.push(part);
            start = i + 1;
            proof {
                assert(r.deep_view() =~= old_deep.push(s@.subrange(old_start, i as int)));
                assert(spec_split2(s@.subrange(0, i + 1), c1, c2)
                    == spec_split2(s@.subrange(0, i as int), c1, c2).push(Seq::<char>::empty()));
                assert(s@.subrange(i + 1, i + 1) =~= Seq::<char>::empty());
                assert(r.deep_view().push(s@.subrange(i + 1, i + 1))
                    =~= old_deep.push(s@.subrange(old_start, i as int)).push(Seq::<char>::empty()));
            }
        } else {
            proof {
                let pre = spec_split2(s@.subrange(0, i as int), c1, c2);
                lemma_split2_len(s@.subrange(0, i as int), c1, c2);
                assert(spec_split2(s@.subrange(0, i + 1), c1, c2)
                    == pre.update(pre.len() - 1, pre.last().push(s@[i as int])));
                assert(pre == old_deep.push(s@.subrange(old_start, i as int)));
                assert(pre.last() == s@.subrange(old_start, i as int));
                assert(s@.subrange(old_start, i as int).push(s@[i as int])
                    =~= s@.subrange(old_start, i + 1));
                assert(pre.update(pre.len() - 1, s@.subrange(old_start, i + 1))
                    =~= old_deep.push(s@.subrange(old_start, i + 1)));
            }
        }
        i += 1;
    }
    let ghost old_deep = r.deep_view();
    let part = s.substring_char(start, len).to_owned();
    r.push(part);
    proof {
        assert(s@.subrange(0, len as int) =~= s@);
        assert(r.deep_view() =~= old_deep.push(s@.subrange(start as int, len as int)));
    }
    r
}

/// Joins the parts with the separator character.
pub fn join_char(parts: &[String], c: char) -> (r: String)
    ensures
        r@ == spec_join(parts.deep_view(), c),
{
    let mut r = String::new();
    let n = parts.len();
    if n == 0 {
        return r;
    }
    let mut i: usize = 0;
    while i < n
        invariant
            n == parts@.len(),
            i <= n,
            i > 0 ==> r@ == spec_join(parts.deep_view().take(i as int), c),
            i == 0 ==> r@ == Seq::<char>::empty(),
        decreases n - i,
    {
        let ghost old_r = r@;
        if i > 0 {
            push_char(&mut r, c);
        }
        r.append(parts[i].as_str());
        proof {
            let dv = parts.deep_view();
            assert(dv[i as int] == parts@[i as int]@);
            if i == 0 {
                assert(dv.take(1) =~= seq![dv[0]]);
                assert(r@ =~= dv[0]);
            } else {
                assert(dv.take(i + 1).drop_last() =~= dv.take(i as int));
                assert(dv.take(i + 1).last() == dv[i as int]);
                assert(dv.take(i + 1).len() >= 2);
                assert(r@ =~= old_r + seq![c] + dv[i as int]);
            }
        }
        i += 1;
    }
    proof {
        assert(parts.deep_view().take(n as int) =~= parts.deep_view());
    }
    r
}

} // verus!
