use cargo_vendor::apply::apply_patch_to_string;
use cargo_vendor::errors::{OBSCargoError, OBSCargoErrorKind, PatchError};
use cargo_vendor::model::{DiffLine, FilePatch, Hunk, LineRange};
use cargo_vendor::parse::parse_patch_set;
use cargo_vendor::resolve::make_patch_path_absolute;

fn hunk(old_start: u32, old_len: u32, new_start: u32, new_len: u32, lines: Vec<DiffLine>) -> Hunk {
    Hunk {
        old_range: LineRange { start: old_start, length: old_len },
        new_range: LineRange { start: new_start, length: new_len },
        lines,
    }
}

fn file_patch(old_path: &str, new_path: &str, hunks: Vec<Hunk>) -> FilePatch {
    FilePatch { old_path: old_path.to_string(), new_path: new_path.to_string(), hunks }
}

#[test]
fn replace_one_line_mid_file() {
    // old ["a","b","c","d"], hunk at 2: context b, remove c, add x, context d
    let p = file_patch(
        "a/f",
        "b/f",
        vec![hunk(
            2,
            3,
            2,
            3,
            vec![
                DiffLine::Context("b".to_string()),
                DiffLine::Remove("c".to_string()),
                DiffLine::Add("x".to_string()),
                DiffLine::Context("d".to_string()),
            ],
        )],
    );
    let out = apply_patch_to_string(&p, "a\nb\nc\nd").unwrap();
    assert_eq!(out, "a\nb\nx\nd");
}

#[test]
fn context_mismatch_reported_with_detail() {
    // old ["a","B"], hunk expects context "b" at line index 1
    let p = file_patch(
        "a/f",
        "b/f",
        vec![hunk(2, 1, 2, 1, vec![DiffLine::Context("b".to_string())])],
    );
    let err = apply_patch_to_string(&p, "a\nB").unwrap_err();
    match err {
        PatchError::ContextMismatch { hunk, line, expected, actual } => {
            assert_eq!(hunk, 0);
            assert_eq!(line, 1);
            assert_eq!(expected, "b");
            assert_eq!(actual, Some("B".to_string()));
        },
        _ => panic!("expected a context mismatch"),
    }
}

#[test]
fn removal_mismatch_reported_with_detail() {
    let p = file_patch(
        "a/f",
        "b/f",
        vec![hunk(1, 1, 1, 0, vec![DiffLine::Remove("gone".to_string())])],
    );
    let err = apply_patch_to_string(&p, "kept").unwrap_err();
    match err {
        PatchError::RemovalMismatch { hunk, line, expected, actual } => {
            assert_eq!(hunk, 0);
            assert_eq!(line, 0);
            assert_eq!(expected, "gone");
            assert_eq!(actual, Some("kept".to_string()));
        },
        _ => panic!("expected a removal mismatch"),
    }
}

#[test]
fn context_past_end_of_file_fails() {
    let p = file_patch(
        "a/f",
        "b/f",
        vec![hunk(
            1,
            2,
            1,
            2,
            vec![DiffLine::Context("a".to_string()), DiffLine::Context("b".to_string())],
        )],
    );
    let err = apply_patch_to_string(&p, "a").unwrap_err();
    match err {
        PatchError::ContextMismatch { hunk, line, expected, actual } => {
            assert_eq!(hunk, 0);
            assert_eq!(line, 1);
            assert_eq!(expected, "b");
            assert_eq!(actual, None);
        },
        _ => panic!("expected a context mismatch at end of file"),
    }
}

#[test]
fn noop_context_hunk_keeps_content() {
    let p = file_patch(
        "a/f",
        "b/f",
        vec![hunk(
            1,
            3,
            1,
            3,
            vec![
                DiffLine::Context("x".to_string()),
                DiffLine::Context("y".to_string()),
                DiffLine::Context("z".to_string()),
            ],
        )],
    );
    let out = apply_patch_to_string(&p, "x\ny\nz").unwrap();
    assert_eq!(out, "x\ny\nz");
}

#[test]
fn lines_after_last_hunk_are_kept() {
    let p = file_patch(
        "a/f",
        "b/f",
        vec![hunk(1, 1, 1, 1, vec![DiffLine::Context("x".to_string())])],
    );
    let out = apply_patch_to_string(&p, "x\ny\nz").unwrap();
    assert_eq!(out, "x\ny\nz");
}

#[test]
fn generated_patch_round_trips() {
    // old ["a","b","c"] edited to ["a","Q","R","c"]
    let p = file_patch(
        "a/f",
        "b/f",
        vec![hunk(
            2,
            1,
            2,
            2,
            vec![
                DiffLine::Remove("b".to_string()),
                DiffLine::Add("Q".to_string()),
                DiffLine::Add("R".to_string()),
            ],
        )],
    );
    let out = apply_patch_to_string(&p, "a\nb\nc").unwrap();
    assert_eq!(out, "a\nQ\nR\nc");
}

#[test]
fn two_hunks_apply_in_order() {
    let p = file_patch(
        "a/f",
        "b/f",
        vec![
            hunk(
                1,
                1,
                1,
                1,
                vec![DiffLine::Remove("one".to_string()), DiffLine::Add("ONE".to_string())],
            ),
            hunk(
                3,
                1,
                3,
                1,
                vec![DiffLine::Remove("three".to_string()), DiffLine::Add("THREE".to_string())],
            ),
        ],
    );
    let out = apply_patch_to_string(&p, "one\ntwo\nthree\nfour").unwrap();
    assert_eq!(out, "ONE\ntwo\nTHREE\nfour");
}

#[test]
fn crlf_old_text_is_split_like_str_lines() {
    let p = file_patch(
        "a/f",
        "b/f",
        vec![hunk(
            1,
            1,
            1,
            1,
            vec![DiffLine::Remove("a".to_string()), DiffLine::Add("A".to_string())],
        )],
    );
    let out = apply_patch_to_string(&p, "a\r\nb\r\n").unwrap();
    assert_eq!(out, "A\nb");
}

#[test]
fn parse_single_file_patch() {
    let text = "--- a/src/lib.rs\t2023-01-01\n+++ b/src/lib.rs\t2023-01-02\n@@ -1,2 +1,2 @@\n-old\n+new\n keep\n";
    let ps = parse_patch_set(text).unwrap();
    assert_eq!(ps.len(), 1);
    assert_eq!(ps[0].old_path, "a/src/lib.rs");
    assert_eq!(ps[0].new_path, "b/src/lib.rs");
    assert_eq!(ps[0].hunks.len(), 1);
    let h = &ps[0].hunks[0];
    assert_eq!(h.old_range.start, 1);
    assert_eq!(h.old_range.length, 2);
    assert_eq!(h.new_range.start, 1);
    assert_eq!(h.new_range.length, 2);
    assert_eq!(h.lines.len(), 3);
    assert!(matches!(&h.lines[0], DiffLine::Remove(s) if s == "old"));
    assert!(matches!(&h.lines[1], DiffLine::Add(s) if s == "new"));
    assert!(matches!(&h.lines[2], DiffLine::Context(s) if s == "keep"));
}

#[test]
fn parse_two_file_patch() {
    let text = "--- a/one\n+++ b/one\n@@ -1 +1 @@\n-x\n+y\n--- a/two\n+++ b/two\n@@ -1 +1 @@\n-p\n+q\n";
    let ps = parse_patch_set(text).unwrap();
    assert_eq!(ps.len(), 2);
    assert_eq!(ps[0].old_path, "a/one");
    assert_eq!(ps[1].old_path, "a/two");
    assert_eq!(ps[1].hunks.len(), 1);
}

#[test]
fn parse_default_lengths_and_trailing_section() {
    let text = "--- a/f\n+++ b/f\n@@ -5 +6,2 @@ fn main() {\n-u\n+v\n+w\n";
    let ps = parse_patch_set(text).unwrap();
    let h = &ps[0].hunks[0];
    assert_eq!(h.old_range.start, 5);
    assert_eq!(h.old_range.length, 1);
    assert_eq!(h.new_range.start, 6);
    assert_eq!(h.new_range.length, 2);
}

#[test]
fn parse_skips_no_newline_markers() {
    let text = "--- a/f\n+++ b/f\n@@ -1 +1 @@\n-x\n\\ No newline at end of file\n+y\n\\ No newline at end of file\n";
    let ps = parse_patch_set(text).unwrap();
    let h = &ps[0].hunks[0];
    assert_eq!(h.lines.len(), 2);
}

#[test]
fn parse_rejects_garbage_leading_line() {
    let text = "diff --git a/f b/f\n--- a/f\n+++ b/f\n@@ -1 +1 @@\n-x\n+y\n";
    let err = parse_patch_set(text).unwrap_err();
    assert!(matches!(err, PatchError::ParseError { line: 0 }));
}

#[test]
fn parse_rejects_missing_new_header() {
    let text = "--- a/f\n@@ -1 +1 @@\n-x\n+y\n";
    let err = parse_patch_set(text).unwrap_err();
    assert!(matches!(err, PatchError::ParseError { line: 1 }));
}

#[test]
fn parse_rejects_empty_text() {
    let err = parse_patch_set("").unwrap_err();
    assert!(matches!(err, PatchError::ParseError { line: 0 }));
}

#[test]
fn parse_rejects_truncated_hunk_body() {
    let text = "--- a/f\n+++ b/f\n@@ -1,2 +1,2 @@\n-x\n";
    let err = parse_patch_set(text).unwrap_err();
    // the text ends while the hunk still owes lines: the error cites the
    // end of the text
    assert!(matches!(err, PatchError::ParseError { line: 4 }));
}

#[test]
fn patch_set_applies_in_order_and_stops_at_first_failure() {
    // two per-file patches in one patch file: the first applies, the
    // second does not match its old content
    let text = "--- a/one\n+++ b/one\n@@ -1 +1 @@\n-x\n+y\n--- a/two\n+++ b/two\n@@ -1 +1 @@\n-p\n+q\n";
    let ps = parse_patch_set(text).unwrap();
    let mut written: Vec<(String, String)> = Vec::new();
    let mut failure: Option<PatchError> = None;
    let olds = vec!["x", "DRIFTED"];
    for (fp, old) in ps.iter().zip(olds.iter()) {
        match apply_patch_to_string(fp, old) {
            Ok(new_text) => written.push((fp.new_path.clone(), new_text)),
            Err(e) => {
                failure = Some(e);
                break;
            },
        }
    }
    assert_eq!(written.len(), 1);
    assert_eq!(written[0].0, "b/one");
    assert_eq!(written[0].1, "y");
    assert!(matches!(failure, Some(PatchError::RemovalMismatch { .. })));
}

#[test]
fn resolve_strips_one_component_of_relative_paths() {
    assert_eq!(make_patch_path_absolute("/prj", "pkg/src/lib.rs"), "/prj/src/lib.rs");
}

#[test]
fn resolve_strips_root_and_one_component_of_absolute_paths() {
    assert_eq!(make_patch_path_absolute("/prj", "/pkg/src/lib.rs"), "/prj/src/lib.rs");
}

#[test]
fn resolve_keeps_existing_trailing_separator() {
    assert_eq!(make_patch_path_absolute("/prj/", "a/f"), "/prj/f");
}

#[test]
fn resolve_with_single_component_leaves_root() {
    assert_eq!(make_patch_path_absolute("/prj", "onlyname"), "/prj");
}

#[test]
fn resolve_with_empty_root_is_relative() {
    assert_eq!(make_patch_path_absolute("", "a/b/c"), "b/c");
}

#[test]
fn rename_resolves_old_and_new_paths_independently() {
    let text = "--- a/old_name.rs\n+++ b/new_name.rs\n@@ -1 +1 @@\n-x\n+y\n";
    let ps = parse_patch_set(text).unwrap();
    let old_resolved = make_patch_path_absolute("/prj", &ps[0].old_path);
    let new_resolved = make_patch_path_absolute("/prj", &ps[0].new_path);
    assert_eq!(old_resolved, "/prj/old_name.rs");
    assert_eq!(new_resolved, "/prj/new_name.rs");
    assert_ne!(old_resolved, new_resolved);
}

#[test]
fn error_kind_descriptions() {
    assert_eq!(OBSCargoErrorKind::AuditError.as_str(), "cargo audit process failed");
    assert_eq!(OBSCargoErrorKind::AuditNeedsAction.as_str(), "security audit is actionable");
    assert_eq!(OBSCargoErrorKind::VendorError.as_str(), "cargo vendor process failed");
    assert_eq!(
        OBSCargoErrorKind::VendorCompressionFailed.as_str(),
        "compress vendored dependencies failed"
    );
    assert_eq!(
        OBSCargoErrorKind::PatchError.as_str(),
        "applying patch to vendored sources failed"
    );
}

#[test]
fn error_new_keeps_kind_and_message() {
    let e = OBSCargoError::new(OBSCargoErrorKind::PatchError, "it failed".to_string());
    assert!(matches!(e.kind, OBSCargoErrorKind::PatchError));
    assert_eq!(e.message, "it failed");
}

#[test]
fn new_file_patch_with_zero_start_applies_to_empty_text() {
    let text = "--- /dev/null\n+++ b/created\n@@ -0,0 +1,2 @@\n+first\n+second\n";
    let ps = parse_patch_set(text).unwrap();
    let out = apply_patch_to_string(&ps[0], "").unwrap();
    assert_eq!(out, "first\nsecond");
}

#[test]
fn parsed_patch_applies_end_to_end() {
    let text = "--- a/pkg/Cargo.toml\n+++ b/pkg/Cargo.toml\n@@ -1,3 +1,3 @@\n [package]\n-version = \"0.1.0\"\n+version = \"0.2.0\"\n edition = \"2021\"\n";
    let ps = parse_patch_set(text).unwrap();
    let old = "[package]\nversion = \"0.1.0\"\nedition = \"2021\"\nrest = true";
    let out = apply_patch_to_string(&ps[0], old).unwrap();
    assert_eq!(out, "[package]\nversion = \"0.2.0\"\nedition = \"2021\"\nrest = true");
}
