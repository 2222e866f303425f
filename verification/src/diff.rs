//! Unified-diff line classification and ANSI coloring.

use vstd::prelude::*;

use crate::strutil::{lines_of, split_lines, starts_with_seq, str_starts_with};

verus! {

/// What a diff line is.
#[derive(Debug, Clone, Copy, PartialEq, Eq, Structural)]
pub enum DiffKind {
    Header,
    FileHeader,
    Hunk,
    Context,
    Added,
    Removed,
}

/// One classified line of a diff.
#[derive(Debug)]
pub struct DiffLine {
    pub kind: DiffKind,
    pub content: String,
}

/// The kind a diff line gets from its leading characters.
pub open spec fn classify_line(l: Seq<char>) -> DiffKind {
    if starts_with_seq(l, "---"@) || starts_with_seq(l, "+++"@) {
        DiffKind::FileHeader
    } else if starts_with_seq(l, "@@"@) {
        DiffKind::Hunk
    } else if l.len() > 0 && l[0] == '+' {
        DiffKind::Added
    } else if l.len() > 0 && l[0] == '-' {
        DiffKind::Removed
    } else {
        DiffKind::Context
    }
}

/// The ANSI-colored form of a classified line: cyan file headers,
/// magenta hunk markers, green additions, red removals, and bare text
/// for the rest.
pub open spec fn styled_line(k: DiffKind, c: Seq<char>) -> Seq<char> {
    match k {
        DiffKind::FileHeader => "\u{1b}[36m"@ + c + "\u{1b}[0m"@,
        DiffKind::Hunk => "\u{1b}[35m"@ + c + "\u{1b}[0m"@,
        DiffKind::Added => "\u{1b}[32m"@ + c + "\u{1b}[0m"@,
        DiffKind::Removed => "\u{1b}[31m"@ + c + "\u{1b}[0m"@,
        DiffKind::Context => c,
        DiffKind::Header => c,
    }
}

/// Splits diff text into classified lines and colors them.
pub struct DiffParser;

impl DiffParser {
    fn parse_line(line: &str) -> (r: DiffLine)
        ensures
            r.kind == classify_line(line@),
            r.content@ == line@,
    {
        let kind = if str_starts_with(line, "---") || str_starts_with(line, "+++") {
            DiffKind::FileHeader
        } else if str_starts_with(line, "@@") {
            DiffKind::Hunk
        } else if line.unicode_len() > 0 && line.get_char(0) == '+' {
            DiffKind::Added
        } else if line.unicode_len() > 0 && line.get_char(0) == '-' {
            DiffKind::Removed
        } else {
            DiffKind::Context
        };
        DiffLine { kind, content: line.to_owned() }
    }

    /// Classifies every line of a unified diff.
    pub fn parse(text: &str) -> (r: Vec<DiffLine>)
        ensures
            r@.len() == lines_of(text@).len(),
            forall|i: int|
                0 <= i < r@.len() ==> (#[trigger] r@[i]).kind == classify_line(lines_of(text@)[i])
                    && r@[i].content@ == lines_of(text@)[i],
    {
        let pieces = split_lines(text);
        let n = pieces.len();
        let mut r: Vec<DiffLine> = Vec::new();
        let mut i: usize = 0;
        while i < n
            invariant
                n == pieces.len(),
                pieces.deep_view() == lines_of(text@),
                i <= n,
                r@.len() == i,
                forall|k: int|
                    0 <= k < i ==> (#[trigger] r@[k]).kind == classify_line(lines_of(text@)[k])
                        && r@[k].content@ == lines_of(text@)[k],
            decreases n - i,
        {
            let line = Self::parse_line(pieces[i].as_str());
            proof {
                assert(pieces.deep_view()[i as int] == pieces@[i as int]@);
            }
            r.push(line);
            i = i + 1;
        }
        r
    }

    fn style_line(line: &DiffLine) -> (r: String)
        ensures
            r@ == styled_line(line.kind, line.content@),
    {
        match line.kind {
            DiffKind::FileHeader => {
                let mut s = String::new();
                s.append("\u{1b}[36m");
                s.append(line.content.as_str());
                s.append("\u{1b}[0m");
                proof {
                    assert(s@ =~= "\u{1b}[36m"@ + line.content@ + "\u{1b}[0m"@);
                }
                s
            },
            DiffKind::Hunk => {
                let mut s = String::new();
                s.append("\u{1b}[35m");
                s.append(line.content.as_str());
                s.append("\u{1b}[0m");
                proof {
                    assert(s@ =~= "\u{1b}[35m"@ + line.content@ + "\u{1b}[0m"@);
                }
                s
            },
            DiffKind::Added => {
                let mut s = String::new();
                s.append("\u{1b}[32m");
                s.append(line.content.as_str());
                s.append("\u{1b}[0m");
                proof {
                    assert(s@ =~= "\u{1b}[32m"@ + line.content@ + "\u{1b}[0m"@);
                }
                s
            },
            DiffKind::Removed => {
                let mut s = String::new();
                s.append("\u{1b}[31m");
                s.append(line.content.as_str());
                s.append("\u{1b}[0m");
                proof {
                    assert(s@ =~= "\u{1b}[31m"@ + line.content@ + "\u{1b}[0m"@);
                }
                s
            },
            DiffKind::Context => line.content.clone(),
            DiffKind::Header => line.content.clone(),
        }
    }

    /// Colors every classified line for terminal display.
    pub fn to_styled(lines: &Vec<DiffLine>) -> (r: Vec<String>)
        ensures
            r@.len() == lines@.len(),
            forall|i: int|
                0 <= i < r@.len() ==> (#[trigger] r@[i])@ == styled_line(
                    lines@[i].kind,
                    lines@[i].content@,
                ),
    {
        let n = lines.len();
        let mut r: Vec<String> = Vec::new();
        let mut i: usize = 0;
        while i < n
            invariant
                n == lines.len(),
                i <= n,
                r@.len() == i,
                forall|k: int|
                    0 <= k < i ==> (#[trigger] r@[k])@ == styled_line(
                        lines@[k].kind,
                        lines@[k].content@,
                    ),
            decreases n - i,
        {
            let s = Self::style_line(&lines[i]);
            r.push(s);
            i = i + 1;
        }
        r
    }
}

} // verus!
