//! The extension analyzer: decomposes a path into directory and base name,
//! splits the base name into dot-separated segments, and resolves the
//! configured signed cut index into the "current extension" of the file.

use vstd::prelude::*;
use crate::strutil::{
    join_char, lemma_split2_concat, lemma_split2_len, lemma_split2_sep_free, spec_join, spec_split,
    spec_split2, split2,
};

verus! {

/// Resolution of a Python-style signed index into a sequence of length
/// `len`: a non-negative index must lie below `len`, a negative index
/// counts from the end.
pub open spec fn spec_si(len: int, i: int) -> Option<int> {
    if i < 0 {
        if -i > len {
            None
        } else {
            Some(len + i)
        }
    } else {
        if i >= len {
            None
        } else {
            Some(i)
        }
    }
}

/// Python-style signed slicing: the tail of `v` from signed index `i` on,
/// or `None` when the index does not resolve.
pub fn vec_si<'a, T>(v: &'a [T], i: i32) -> (r: Option<&'a [T]>)
    requires
        v@.len() <= i32::MAX as int,
    ensures
        r is Some <==> spec_si(v@.len() as int, i as int) is Some,
        r is Some ==> r.unwrap()@ == v@.skip(spec_si(v@.len() as int, i as int).unwrap()),
{
    let len_i32: i32 = v.len() as i32;
    let idx: usize = if i < 0 {
        if i < -len_i32 {
            return None;
        }
        (len_i32 + i) as usize
    } else {
        if i >= len_i32 {
            return None;
        }
        i as usize
    };
    Some(vstd::slice::slice_subrange(v, idx, v.len()))
}

/// Strip every trailing occurrence of `c`.
pub open spec fn spec_strip_last(s: Seq<char>, c: char) -> Seq<char>
    decreases s.len(),
{
    if s.len() > 0 && s.last() == c {
        spec_strip_last(s.drop_last(), c)
    } else {
        s
    }
}

proof fn lemma_strip_last_take(s: Seq<char>, c: char, e: int)
    requires
        0 <= e <= s.len(),
        forall|j: int| e <= j < s.len() ==> s[j] == c,
        e > 0 ==> s[e - 1] != c,
    ensures
        spec_strip_last(s, c) == s.take(e),
    decreases s.len(),
{
    if e == s.len() {
        assert(s.take(e) =~= s);
    } else {
        let t = s.drop_last();
        assert(s.last() == c);
        assert(forall|j: int| e <= j < t.len() ==> t[j] == c);
        lemma_strip_last_take(t, c, e);
        assert(t.take(e) =~= s.take(e));
    }
}

/// Directory and base-name decomposition of a non-empty path string:
/// trailing slashes are ignored, the base name is what follows the last
/// remaining slash, and the directory is what precedes it ("." when there
/// is none, "/" when only slashes precede it).
pub open spec fn spec_dir_base(s: Seq<char>) -> (Seq<char>, Seq<char>) {
    let stripped = spec_strip_last(s, '/');
    if stripped.len() == 0 {
        (seq!['/'], seq!['/'])
    } else {
        let parts = spec_split(stripped, '/');
        let base = parts.last();
        if parts.len() == 1 {
            (seq!['.'], base)
        } else {
            let head = spec_strip_last(stripped.take(stripped.len() - base.len() - 1), '/');
            if head.len() == 0 {
                (seq!['/'], base)
            } else {
                (head, base)
            }
        }
    }
}

/// Splits a path into its directory part and its base name.
pub fn path_to_dir_base(s: &str) -> (r: (String, String))
    requires
        s@.len() > 0,
    ensures
        (r.0@, r.1@) == spec_dir_base(s@),
{
    let len = s.unicode_len();
    let mut e: usize = len;
    while e > 0 && s.get_char(e - 1) == '/'
        invariant
            len == s@.len(),
            e <= len,
            forall|j: int| e <= j < len ==> s@[j] == '/',
        decreases e,
    {
        e -= 1;
    }
    proof {
        lemma_strip_last_take(s@, '/', e as int);
    }
    if e == 0 {
        let root = "/".to_owned();
        proof {
            reveal_strlit("/");
            assert(s@.take(0) =~= Seq::<char>::empty());
        }
        let root2 = "/".to_owned();
        return (root, root2);
    }
    let ghost stripped = s@.take(e as int);
    // Find the last slash before `e`.
    let mut q: usize = e;
    while q > 0 && s.get_char(q - 1) != '/'
        invariant
            len == s@.len(),
            q <= e <= len,
            forall|j: int| q <= j < e ==> s@[j] != '/',
        decreases q,
    {
        q -= 1;
    }
    if q == 0 {
        // No slash at all: the whole stripped path is the base name.
        proof {
            assert(forall|k: int| 0 <= k < stripped.len()
                ==> !crate::strutil::is_sep2(stripped[k], '/', '/'));
            lemma_split2_sep_free(stripped, '/', '/');
        }
        let dot = ".".to_owned();
        let base = s.substring_char(0, e).to_owned();
        proof {
            reveal_strlit(".");
            assert(s@.subrange(0, e as int) == stripped);
        }
        return (dot, base);
    }
    // s@[q - 1] == '/', and no slash in [q, e).
    let base = s.substring_char(q, e).to_owned();
    proof {
        let x = stripped.take(q - 1);
        let y = stripped.skip(q as int);
        assert(stripped =~= x + seq!['/'] + y);
        assert(forall|k: int| 0 <= k < y.len()
            ==> !crate::strutil::is_sep2(y[k], '/', '/'));
        lemma_split2_concat(x, y, '/', '/', '/');
        lemma_split2_sep_free(y, '/', '/');
        lemma_split2_len(x, '/', '/');
        let parts = spec_split(stripped, '/');
        assert(parts == spec_split(x, '/') + seq![y]);
        assert(parts.last() == y);
        assert(parts.len() >= 2);
        assert(s@.subrange(q as int, e as int) == y);
        assert(stripped.take(stripped.len() - y.len() - 1) =~= s@.take(q - 1));
    }
    // Strip trailing slashes from the directory part.
    let mut d: usize = q - 1;
    while d > 0 && s.get_char(d - 1) == '/'
        invariant
            len == s@.len(),
            d <= q - 1,
            q <= e <= len,
            forall|j: int| d <= j < q - 1 ==> s@[j] == '/',
        decreases d,
    {
        d -= 1;
    }
    proof {
        let head_raw = s@.take(q - 1);
        assert(forall|j: int| d <= j < head_raw.len() ==> head_raw[j] == '/');
        lemma_strip_last_take(head_raw, '/', d as int);
        assert(head_raw.take(d as int) =~= s@.take(d as int));
    }
    if d == 0 {
        let root = "/".to_owned();
        proof {
            reveal_strlit("/");
        }
        return (root, base);
    }
    let dir = s.substring_char(0, d).to_owned();
    proof {
        assert(s@.subrange(0, d as int) == s@.take(d as int));
    }
    (dir, base)
}

/// Recombination of a directory part and a base name, as pushing the
/// base onto the directory path would: a separating slash is added
/// unless the directory already ends in one.
pub open spec fn spec_join_path(dir: Seq<char>, base: Seq<char>) -> Seq<char> {
    if dir.len() > 0 && dir.last() == '/' {
        dir + base
    } else {
        dir + seq!['/'] + base
    }
}

/// Joins a directory part and a base name into one path.
pub fn join_path(dir: &str, base: &str) -> (r: String)
    ensures
        r@ == spec_join_path(dir@, base@),
{
    let mut s = dir.to_owned();
    let dlen = dir.unicode_len();
    if dlen == 0 || dir.get_char(dlen - 1) != '/' {
        crate::strutil::push_char(&mut s, '/');
    }
    s.append(base);
    proof {
        assert(s@ =~= spec_join_path(dir@, base@));
    }
    s
}

/// The decomposition of one file name under a given cut index.
#[derive(Debug)]
pub struct FileNameParts {
    pub dir: String,
    pub base: String,
    pub segments: Vec<String>,
    pub has_dot: bool,
    pub ext: String,
    pub valid: bool,
}

/// Mathematical image of `FileNameParts`.
#[verifier::ext_equal]
pub struct PartsModel {
    pub dir: Seq<char>,
    pub base: Seq<char>,
    pub segments: Seq<Seq<char>>,
    pub has_dot: bool,
    pub ext: Seq<char>,
    pub valid: bool,
}

impl View for FileNameParts {
    type V = PartsModel;

    open spec fn view(&self) -> PartsModel {
        PartsModel {
            dir: self.dir@,
            base: self.base@,
            segments: self.segments.deep_view(),
            has_dot: self.has_dot,
            ext: self.ext@,
            valid: self.valid,
        }
    }
}

/// What the analyzer yields for a directory, a base name and a cut index:
/// the base name is split on dots, and the cut index is resolved as a
/// signed index into the segments after the first one; the extension is
/// the selected tail of segments joined by dots, empty and invalid when
/// the index does not resolve.
pub open spec fn spec_analyze(dir: Seq<char>, base: Seq<char>, extdot: int) -> PartsModel {
    let segments = spec_split(base, '.');
    let sub = segments.skip(1);
    match spec_si(sub.len() as int, extdot) {
        Some(idx) => PartsModel {
            dir,
            base,
            segments,
            has_dot: segments.len() > 1,
            ext: spec_join(sub.skip(idx), '.'),
            valid: true,
        },
        None => PartsModel {
            dir,
            base,
            segments,
            has_dot: segments.len() > 1,
            ext: Seq::<char>::empty(),
            valid: false,
        },
    }
}

proof fn lemma_split2_count(s: Seq<char>, c1: char, c2: char)
    ensures
        spec_split2(s, c1, c2).len() <= s.len() + 1,
    decreases s.len(),
{
    if s.len() > 0 {
        lemma_split2_count(s.drop_last(), c1, c2);
        lemma_split2_len(s.drop_last(), c1, c2);
    }
}

/// Decomposes a base name under the configured cut index.
pub fn analyze(dir: &str, base: &str, extdot: i32) -> (r: FileNameParts)
    requires
        base@.len() + 1 <= i32::MAX as int,
    ensures
        r@ == spec_analyze(dir@, base@, extdot as int),
{
    let segments = split2(base, '.', '.');
    proof {
        lemma_split2_len(base@, '.', '.');
        lemma_split2_count(base@, '.', '.');
        assert(segments@.len() == segments.deep_view().len());
    }
    let has_dot = segments.len() > 1;
    let sub = vstd::slice::slice_subrange(segments.as_slice(), 1, segments.len());
    let ghost subdeep = segments.deep_view().skip(1);
    proof {
        assert(sub.deep_view() =~= subdeep);
    }
    let (valid, ext): (bool, String) = match vec_si(sub, extdot) {
        Some(tail) => {
            let ghost idx = spec_si(subdeep.len() as int, extdot as int).unwrap();
            proof {
                assert(tail.deep_view() =~= subdeep.skip(idx));
            }
            (true, join_char(tail, '.'))
        },
        None => (false, String::new()),
    };
    let r = FileNameParts {
        dir: dir.to_owned(),
        base: base.to_owned(),
        segments,
        has_dot,
        ext,
        valid,
    };
    proof {
        assert(r@ =~= spec_analyze(dir@, base@, extdot as int));
    }
    r
}

} // verus!
