//! Report formatting: the rename audit line, the NUL-delimited
//! match-info record, the rule-table dump lines and the detect line.
//! File names in the audit line are shell-quoted by the `shellwords`
//! crate.

use vstd::prelude::*;
use crate::strutil::{join_char, push_char, spec_join};

verus! {

/// What `shellwords::escape` returns for a string: a function of the
/// characters alone.
pub uninterp spec fn shell_escaped(s: Seq<char>) -> Seq<char>;

/// Relies on `shellwords::escape`: quotes a file name for a shell, as a
/// function of the name alone; an empty name becomes an empty quoted
/// string, so the result is never empty.
#[verifier::external_body]
pub fn quote_filename(filename: &str) -> (r: String)
    ensures
        r@ == shell_escaped(filename@),
        r@.len() > 0,
{
    shellwords::escape(filename)
}

/// The audit line of one rename: quoted old and new name, marked when
/// the run is dry.
pub open spec fn spec_rename_report(dry: bool, old: Seq<char>, new: Seq<char>) -> Seq<char> {
    if dry {
        "(DRY RUN) "@ + shell_escaped(old) + " -> "@ + shell_escaped(new)
    } else {
        shell_escaped(old) + " -> "@ + shell_escaped(new)
    }
}

/// Formats the audit line of one rename.
pub fn format_rename_report(dry: bool, old: &str, new: &str) -> (r: String)
    ensures
        r@ == spec_rename_report(dry, old@, new@),
{
    let mut s = String::new();
    if dry {
        s.append("(DRY RUN) ");
    }
    let q_old = quote_filename(old);
    s.append(q_old.as_str());
    s.append(" -> ");
    let q_new = quote_filename(new);
    s.append(q_new.as_str());
    proof {
        assert(s@ =~= spec_rename_report(dry, old@, new@));
    }
    s
}

/// The NUL-delimited match-info record of one file: path, description,
/// description extensions, media type, media-type extensions, each
/// followed by a NUL.
pub open spec fn spec_match_info(
    path: Seq<char>,
    desc: Seq<char>,
    dexts: Seq<Seq<char>>,
    mime: Seq<char>,
    mexts: Seq<Seq<char>>,
) -> Seq<char> {
    path + seq!['\0'] + desc + seq!['\0'] + spec_join(dexts, ' ') + seq!['\0'] + mime + seq![
        '\0',
    ] + spec_join(mexts, ' ') + seq!['\0']
}

/// Formats the match-info record of one file.
pub fn format_match_info(
    path: &str,
    desc: &str,
    dexts: &Vec<String>,
    mime: &str,
    mexts: &Vec<String>,
) -> (r: String)
    ensures
        r@ == spec_match_info(path@, desc@, dexts.deep_view(), mime@, mexts.deep_view()),
{
    let mut s = String::new();
    s.append(path);
    push_char(&mut s, '\0');
    s.append(desc);
    push_char(&mut s, '\0');
    let dj = join_char(dexts.as_slice(), ' ');
    s.append(dj.as_str());
    push_char(&mut s, '\0');
    s.append(mime);
    push_char(&mut s, '\0');
    let mj = join_char(mexts.as_slice(), ' ');
    s.append(mj.as_str());
    push_char(&mut s, '\0');
    proof {
        assert(s@ =~= spec_match_info(path@, desc@, dexts.deep_view(), mime@, mexts.deep_view()));
    }
    s
}

/// One line of the description-table dump: pattern, a tab, and the
/// extensions separated by spaces.
pub open spec fn spec_dump_desc_line(pat: Seq<char>, exts: Seq<Seq<char>>) -> Seq<char> {
    pat + seq!['\t'] + spec_join(exts, ' ')
}

/// Formats one line of the description-table dump.
pub fn format_dump_desc_line(pat: &str, exts: &Vec<String>) -> (r: String)
    ensures
        r@ == spec_dump_desc_line(pat@, exts.deep_view()),
{
    let mut s = pat.to_owned();
    push_char(&mut s, '\t');
    let j = join_char(exts.as_slice(), ' ');
    s.append(j.as_str());
    proof {
        assert(s@ =~= spec_dump_desc_line(pat@, exts.deep_view()));
    }
    s
}

/// One line of the media-type-table dump: the type and the extensions,
/// separated by spaces.
pub open spec fn spec_dump_mime_line(mime: Seq<char>, exts: Seq<Seq<char>>) -> Seq<char> {
    mime + seq![' '] + spec_join(exts, ' ')
}

/// Formats one line of the media-type-table dump.
pub fn format_dump_mime_line(mime: &str, exts: &Vec<String>) -> (r: String)
    ensures
        r@ == spec_dump_mime_line(mime@, exts.deep_view()),
{
    let mut s = mime.to_owned();
    push_char(&mut s, ' ');
    let j = join_char(exts.as_slice(), ' ');
    s.append(j.as_str());
    proof {
        assert(s@ =~= spec_dump_mime_line(mime@, exts.deep_view()));
    }
    s
}

/// The detect line of one file: its path, a separator, and the matched
/// description or media type.
pub open spec fn spec_detect_line(path: Seq<char>, label: Seq<char>) -> Seq<char> {
    path + ": "@ + label
}

/// Formats the detect line of one file.
pub fn format_detect_line(path: &str, label: &str) -> (r: String)
    ensures
        r@ == spec_detect_line(path@, label@),
{
    let mut s = path.to_owned();
    s.append(": ");
    s.append(label);
    proof {
        assert(s@ =~= spec_detect_line(path@, label@));
    }
    s
}

} // verus!
