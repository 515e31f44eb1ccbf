//! End-to-end scenarios for the classification and rename engine.

use fixext::analyzer::analyze;
use fixext::classify::{match_file, match_types, MagicMatch, Types};
use fixext::executor::execute_policy;
use fixext::opts::Opts;
use fixext::planner::{decide, plan, RenameAction};
use fixext::table::{build_types, load_desc_rules, load_mime_rules};

fn lines(v: &[&str]) -> Vec<String> {
    v.iter().map(|s| s.to_string()).collect()
}

fn types_from(desc: &[&str], mime: &[&str]) -> Types {
    Types {
        desc: load_desc_rules(&lines(desc)),
        mime: load_mime_rules(&lines(mime)),
    }
}

fn opts() -> Opts {
    let mut o = Opts::default();
    o.extdot = -1;
    o
}

#[test]
fn classify_by_description() {
    let t = types_from(&["PNG image\tpng"], &[]);
    match match_types("PNG image data, 8-bit", "image/png", &t) {
        MagicMatch::Description(pat, exts) => {
            assert_eq!(pat, "PNG image");
            assert_eq!(exts, vec!["png".to_string()]);
        }
        other => panic!("expected a description match, got {:?}", other),
    }
}

#[test]
fn classify_uses_regex_syntax() {
    // `.` matches any character and the anchors hold: a plain string
    // comparison would reject this description.
    let t = types_from(&["^a.c$\tx"], &[]);
    assert!(matches!(
        match_types("abc", "", &t),
        MagicMatch::Description(_, _)
    ));
    assert!(matches!(match_types("abcd", "", &t), MagicMatch::Unmatched));
}

#[test]
fn classify_falls_back_to_mime() {
    let t = types_from(&["^ELF\telf"], &["image/png png"]);
    match match_types("PNG image data", "image/png", &t) {
        MagicMatch::MIME(m, exts) => {
            assert_eq!(m, "image/png");
            assert_eq!(exts, vec!["png".to_string()]);
        }
        other => panic!("expected a media-type match, got {:?}", other),
    }
}

#[test]
fn classify_unmatched() {
    let t = types_from(&["^ELF\telf"], &["image/png png"]);
    assert!(matches!(
        match_types("plain text", "text/plain", &t),
        MagicMatch::Unmatched
    ));
}

#[test]
fn empty_oracle_strings_are_unmatched() {
    // The pattern `^` matches every text, the empty one included; the
    // empty-empty shortcut must win before any scan.
    let t = types_from(&["^\tcatchall"], &["a/b x"]);
    assert!(matches!(match_file("", "", &t), MagicMatch::Unmatched));
    assert!(matches!(
        match_types("", "", &t),
        MagicMatch::Description(_, _)
    ));
    assert!(matches!(
        match_file("anything", "", &t),
        MagicMatch::Description(_, _)
    ));
}

#[test]
fn star_sentinel_plans_noop_over_mime_mapping() {
    // The description rule resolves to ["*"]; the media type has a real
    // mapping, but it must not be consulted.
    let t = types_from(&["core dump\t*"], &["application/x-coredump core"]);
    let parts = analyze("", "crash", -1);
    let a = decide(
        "core dump from 'prog'",
        "application/x-coredump",
        &t,
        &parts,
        false,
    );
    assert!(matches!(a, RenameAction::NoOpIgnored));
}

#[test]
fn question_sentinel_falls_through_to_mime() {
    // Both patterns match the description; the first carries `?`, which
    // halts the scan, so rule B must not fire and the media type decides.
    let t = types_from(&["A\t?", "B\tx"], &["text/plain txt"]);
    match match_types("AB data", "text/plain", &t) {
        MagicMatch::MIME(m, exts) => {
            assert_eq!(m, "text/plain");
            assert_eq!(exts, vec!["txt".to_string()]);
        }
        other => panic!("expected fallthrough to the media type, got {:?}", other),
    }
}

#[test]
fn question_sentinel_keeps_earlier_match() {
    // A non-sentinel rule matched before the `?` rule: the scan stops,
    // and the earlier record stands; the media type is not consulted.
    let t = types_from(&["foo\ta", "foo\t?", "foo\tz"], &["text/plain txt"]);
    match match_types("foo data", "text/plain", &t) {
        MagicMatch::Description(_, exts) => assert_eq!(exts, vec!["a".to_string()]),
        other => panic!("expected the earlier description match, got {:?}", other),
    }
}

#[test]
fn last_match_wins() {
    // Two rules with the same pattern: the loader would drop the later
    // duplicate, but overrides are kept as given (and reversed), so the
    // table scans ("foo", ["a"]) first and ("foo", ["b"]) second.
    let t = build_types(
        Vec::new(),
        Vec::new(),
        &lines(&["foo=b", "foo=a"]),
        &lines(&[]),
    )
    .expect("both overrides are well-formed");
    assert_eq!(t.desc[0].0.src_str(), "foo");
    assert_eq!(t.desc[0].1, lines(&["a"]));
    assert_eq!(t.desc[1].1, lines(&["b"]));
    match match_types("foo data", "", &t) {
        MagicMatch::Description(_, exts) => assert_eq!(exts, vec!["b".to_string()]),
        other => panic!("expected the later rule to win, got {:?}", other),
    }
}

#[test]
fn cut_index_semantics() {
    let p = analyze("", "archive.tar.gz", -1);
    assert!(p.valid);
    assert_eq!(p.ext, "gz");

    let p = analyze("", "archive.tar.gz", 0);
    assert!(p.valid);
    assert_eq!(p.ext, "tar.gz");

    let p = analyze("", "archive.tar.gz", 5);
    assert!(p.has_dot);
    assert!(!p.valid);
    let a = plan(&p, &lines(&["zip"]), false);
    assert!(matches!(a, RenameAction::SkipIndexError));
}

#[test]
fn append_vs_replace() {
    let p = analyze("", "photo.jpg", -1);
    match plan(&p, &lines(&["jpeg"]), false) {
        RenameAction::Rename(nb) => assert_eq!(nb, "photo.jpeg"),
        other => panic!("expected a rename, got {:?}", other),
    }
    match plan(&p, &lines(&["jpeg"]), true) {
        RenameAction::Rename(nb) => assert_eq!(nb, "photo.jpg.jpeg"),
        other => panic!("expected a rename, got {:?}", other),
    }
}

#[test]
fn idempotence_member_extension() {
    let p = analyze("", "photo.jpeg", -1);
    let a = plan(&p, &lines(&["jpeg", "jpg"]), false);
    assert!(matches!(a, RenameAction::NoOpAlreadyCorrect));
}

#[test]
fn idempotence_after_one_correction() {
    let exts = lines(&["jpeg", "jpg"]);
    let p = analyze("", "photo.dat", -1);
    let nb = match plan(&p, &exts, false) {
        RenameAction::Rename(nb) => nb,
        other => panic!("expected a rename, got {:?}", other),
    };
    assert_eq!(nb, "photo.jpeg");
    let p2 = analyze("", nb.as_str(), -1);
    let a2 = plan(&p2, &exts, false);
    assert!(matches!(a2, RenameAction::NoOpAlreadyCorrect));
}

#[test]
fn no_mapping_is_skipped() {
    let p = analyze("", "file.bin", -1);
    let a = plan(&p, &Vec::new(), false);
    assert!(matches!(a, RenameAction::SkipNoMapping));
}

#[test]
fn collision_protection() {
    let mut o = opts();
    o.force = false;
    o.interactive = false;
    let d = execute_policy(&o, true, false);
    assert!(!d.proceed);
    assert!(!d.mutate);

    // With force the rename proceeds and mutates.
    o.force = true;
    let d = execute_policy(&o, true, false);
    assert!(d.proceed);
    assert!(d.mutate);

    // A dry run proceeds (it reports) but never mutates.
    o.dry = true;
    let d = execute_policy(&o, true, false);
    assert!(d.proceed);
    assert!(!d.mutate);

    // Interactively the operator's answer alone decides.
    o.dry = false;
    o.force = false;
    o.interactive = true;
    assert!(execute_policy(&o, true, true).proceed);
    assert!(!execute_policy(&o, true, false).proceed);
}

#[test]
fn override_precedence() {
    let builtin_desc = load_desc_rules(&lines(&["^ELF\telf"]));
    let builtin_mime = load_mime_rules(&lines(&[]));
    let t = build_types(
        builtin_desc,
        builtin_mime,
        &lines(&["text=txt"]),
        &lines(&[]),
    )
    .expect("the override is well-formed");
    // The override stands ahead of the built-in rule in the scan order.
    assert_eq!(t.desc[0].0.src_str(), "text");
    assert_eq!(t.desc[1].0.src_str(), "^ELF");
    match match_types("text file", "", &t) {
        MagicMatch::Description(pat, exts) => {
            assert_eq!(pat, "text");
            assert_eq!(exts, vec!["txt".to_string()]);
        }
        other => panic!("expected the override to govern, got {:?}", other),
    }
}

#[test]
fn desc_overrides_reversed_before_builtins() {
    let t = build_types(
        Vec::new(),
        Vec::new(),
        &lines(&["one=a", "two=b"]),
        &lines(&[]),
    )
    .expect("both overrides are well-formed");
    // The override given last on the command line is scanned first.
    assert_eq!(t.desc[0].0.src_str(), "two");
    assert_eq!(t.desc[1].0.src_str(), "one");
}

#[test]
fn mime_override_replaces_builtin_entry() {
    let builtin_mime = load_mime_rules(&lines(&["image/jpeg jpg jpeg", "image/png png"]));
    let t = build_types(
        Vec::new(),
        builtin_mime,
        &lines(&[]),
        &lines(&["image/jpeg=jfif"]),
    )
    .expect("the override is well-formed");
    match match_types("", "image/jpeg", &t) {
        MagicMatch::MIME(_, exts) => assert_eq!(exts, vec!["jfif".to_string()]),
        other => panic!("expected the overridden mapping, got {:?}", other),
    }
    match match_types("", "image/png", &t) {
        MagicMatch::MIME(_, exts) => assert_eq!(exts, vec!["png".to_string()]),
        other => panic!("expected the untouched mapping, got {:?}", other),
    }
}

#[test]
fn rename_keeps_multi_segment_cut() {
    // Cut index 0 takes everything after the first dot as the extension.
    let p = analyze("", "backup.tar.gz", 0);
    assert_eq!(p.ext, "tar.gz");
    match plan(&p, &lines(&["zip"]), false) {
        RenameAction::Rename(nb) => assert_eq!(nb, "backup.zip"),
        other => panic!("expected a rename, got {:?}", other),
    }
}

#[test]
fn dotless_name_appends() {
    let p = analyze("", "README", -1);
    assert!(!p.has_dot);
    match plan(&p, &lines(&["txt"]), false) {
        RenameAction::Rename(nb) => assert_eq!(nb, "README.txt"),
        other => panic!("expected a rename, got {:?}", other),
    }
}
