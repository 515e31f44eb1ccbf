//! Tests for the string utilities, the path decomposition, the table
//! loaders and override parsers, the report formatting and the walker
//! steps.

use fixext::analyzer::{join_path, path_to_dir_base, vec_si};
use fixext::executor::is_affirmative;
use fixext::report::{
    format_detect_line, format_dump_desc_line, format_dump_mime_line, format_match_info,
    format_rename_report,
};
use fixext::strutil::{join_char, split2, str_eq, trim};
use fixext::table::{
    load_desc_rules, load_mime_rules, parse_desc_override, parse_mime_override, OverrideError,
};
use fixext::walker::{walk_step, PathKind, WalkStep};

fn lines(v: &[&str]) -> Vec<String> {
    v.iter().map(|s| s.to_string()).collect()
}

#[test]
fn path_decomposition() {
    assert_eq!(path_to_dir_base("a"), (".".to_string(), "a".to_string()));
    assert_eq!(path_to_dir_base("/a"), ("/".to_string(), "a".to_string()));
    assert_eq!(
        path_to_dir_base("dir/sub/f.txt"),
        ("dir/sub".to_string(), "f.txt".to_string())
    );
    assert_eq!(path_to_dir_base("a//b"), ("a".to_string(), "b".to_string()));
    assert_eq!(path_to_dir_base("/"), ("/".to_string(), "/".to_string()));
    assert_eq!(path_to_dir_base("a/b/"), ("a".to_string(), "b".to_string()));
    assert_eq!(path_to_dir_base("./x"), (".".to_string(), "x".to_string()));
    assert_eq!(path_to_dir_base("//a"), ("/".to_string(), "a".to_string()));
}

#[test]
fn join_path_cases() {
    assert_eq!(join_path(".", "x"), "./x");
    assert_eq!(join_path("/", "x"), "/x");
    assert_eq!(join_path("a/b", "c"), "a/b/c");
}

#[test]
fn signed_slicing() {
    let v = [1, 2, 3];
    assert_eq!(vec_si(&v, -1), Some(&v[2..]));
    assert_eq!(vec_si(&v, 0), Some(&v[0..]));
    assert_eq!(vec_si(&v, -3), Some(&v[0..]));
    assert_eq!(vec_si(&v, 1), Some(&v[1..]));
    assert_eq!(vec_si(&v, -4), None);
    assert_eq!(vec_si(&v, 3), None);
    let empty: [i32; 0] = [];
    assert_eq!(vec_si(&empty, -1), None);
    assert_eq!(vec_si(&empty, 0), None);
}

#[test]
fn string_utilities() {
    assert!(str_eq("abc", "abc"));
    assert!(!str_eq("abc", "abd"));
    assert!(!str_eq("abc", "ab"));
    assert_eq!(trim("  a b\t"), "a b");
    assert_eq!(trim("\t\n"), "");
    assert_eq!(split2("a.b..c", '.', '.'), lines(&["a", "b", "", "c"]));
    assert_eq!(split2("", '.', '.'), lines(&[""]));
    assert_eq!(split2("x,y z", ',', ' '), lines(&["x", "y", "z"]));
    assert_eq!(join_char(&lines(&["a", "b", "c"]), '.'), "a.b.c");
    assert_eq!(join_char(&lines(&[]), '.'), "");
}

#[test]
fn affirmative_replies() {
    assert!(is_affirmative("y"));
    assert!(is_affirmative("Yes"));
    assert!(is_affirmative("  yup"));
    assert!(is_affirmative("\t Y"));
    assert!(!is_affirmative("n"));
    assert!(!is_affirmative(" x y"));
    assert!(!is_affirmative(""));
    assert!(!is_affirmative("   "));
}

#[test]
fn desc_table_loading() {
    let rules = load_desc_rules(&lines(&[
        "# a comment",
        "",
        "   ",
        "PNG image\tpng",
        "JPEG\tjpg\tjpeg",
        "(\tbroken-regex-dropped",
        "PNG image\tduplicate-dropped",
    ]));
    assert_eq!(rules.len(), 2);
    assert_eq!(rules[0].0.src_str(), "PNG image");
    assert_eq!(rules[0].1, lines(&["png"]));
    assert_eq!(rules[1].0.src_str(), "JPEG");
    assert_eq!(rules[1].1, lines(&["jpg", "jpeg"]));
}

#[test]
fn mime_table_loading() {
    let rules = load_mime_rules(&lines(&[
        "text/plain txt text",
        "no-extensions-dropped",
        "# comment",
        "text/plain later-duplicate-dropped",
        "image/png png",
    ]));
    assert_eq!(rules.len(), 2);
    assert_eq!(rules[0].0, "text/plain");
    assert_eq!(rules[0].1, lines(&["txt", "text"]));
    assert_eq!(rules[1].0, "image/png");
}

#[test]
fn mime_line_keeps_empty_pieces_between_spaces() {
    // The source format splits on single spaces: a double space yields
    // an empty extension entry, which is kept as given.
    let rules = load_mime_rules(&lines(&["a/b  x"]));
    assert_eq!(rules.len(), 1);
    assert_eq!(rules[0].1, lines(&["", "x"]));
}

#[test]
fn override_parsing() {
    let (p, exts) = parse_desc_override("text=txt, text").expect("well-formed");
    assert_eq!(p.src_str(), "text");
    assert_eq!(exts, lines(&["txt", "text"]));

    assert!(matches!(
        parse_desc_override("missing-separator"),
        Err(OverrideError::MissingSeparator)
    ));
    assert!(matches!(
        parse_desc_override("(=broken"),
        Err(OverrideError::InvalidPattern)
    ));

    let (m, exts) = parse_mime_override("image/jpeg=jfif,jpeg").expect("well-formed");
    assert_eq!(m, "image/jpeg");
    assert_eq!(exts, lines(&["jfif", "jpeg"]));
    assert_eq!(
        parse_mime_override("noslash=x"),
        Err(OverrideError::MissingSlash)
    );
    assert_eq!(
        parse_mime_override("image/png"),
        Err(OverrideError::MissingSeparator)
    );
}

#[test]
fn rename_report_quotes_names() {
    // The space must come out escaped: an unquoted report would read
    // differently in a shell.
    assert_eq!(format_rename_report(false, "a b", "c.txt"), "a\\ b -> c.txt");
    assert_eq!(
        format_rename_report(true, "old", "new"),
        "(DRY RUN) old -> new"
    );
}

#[test]
fn match_info_record() {
    let r = format_match_info(
        "p",
        "desc",
        &lines(&["x", "y"]),
        "text/plain",
        &lines(&["z"]),
    );
    assert_eq!(r, "p\0desc\0x y\0text/plain\0z\0");
}

#[test]
fn dump_lines() {
    assert_eq!(
        format_dump_desc_line("PNG image", &lines(&["png", "apng"])),
        "PNG image\tpng apng"
    );
    assert_eq!(
        format_dump_mime_line("image/png", &lines(&["png"])),
        "image/png png"
    );
}

#[test]
fn detect_line() {
    assert_eq!(
        format_detect_line("f.bin", "PNG image data"),
        "f.bin: PNG image data"
    );
}

#[test]
fn walker_steps() {
    assert_eq!(walk_step(PathKind::StatError, false), WalkStep::ReportError);
    assert_eq!(walk_step(PathKind::StatError, true), WalkStep::ReportError);
    assert_eq!(walk_step(PathKind::File, false), WalkStep::ProcessFile);
    assert_eq!(walk_step(PathKind::Directory, true), WalkStep::Descend);
    assert_eq!(walk_step(PathKind::Directory, false), WalkStep::SkipDir);
}
