use space_cmd::diff::{DiffKind, DiffLine, DiffParser};

#[test]
fn parse_unified_diff() {
    let diff = "--- a/file.rs\n+++ b/file.rs\n@@ -1,5 +1,6 @@\n fn main() {\n-    println!(\"old\");\n+    println!(\"new\");\n     // context\n }\n";

    let lines = DiffParser::parse(diff);
    assert_eq!(lines.len(), 8);
    assert_eq!(lines[0].kind, DiffKind::FileHeader);
    assert_eq!(lines[2].kind, DiffKind::Hunk);
    assert_eq!(lines[3].kind, DiffKind::Context);
    assert_eq!(lines[4].kind, DiffKind::Removed);
    assert_eq!(lines[5].kind, DiffKind::Added);
}

#[test]
fn style_generates_ansi() {
    let lines = vec![
        DiffLine {
            kind: DiffKind::Added,
            content: "+hello".to_string(),
        },
        DiffLine {
            kind: DiffKind::Removed,
            content: "-goodbye".to_string(),
        },
    ];

    let styled = DiffParser::to_styled(&lines);
    assert!(styled[0].contains("\u{1b}[32m"));
    assert!(styled[1].contains("\u{1b}[31m"));
}
