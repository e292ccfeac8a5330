//! A finding: one defect a rule reports at one place.

use vstd::prelude::*;
use crate::source::{lines, SourceText};
use crate::syntax::SyntaxTree;
use crate::text::trim_end;
use crate::unicode::string_of;

verus! {

/// How serious a finding is; `Error` ranks first.
#[derive(Debug, Clone, Copy, PartialEq, Eq, Structural, Hash)]
pub enum Severity {
    Error,
    Warning,
    Info,
}

/// Rank of a severity: `Error` < `Warning` < `Info`, the order the variants are declared in.
pub open spec fn severity_rank(s: Severity) -> int {
    match s {
        Severity::Error => 0,
        Severity::Warning => 1,
        Severity::Info => 2,
    }
}

pub open spec fn severity_label(s: Severity) -> Seq<char> {
    match s {
        Severity::Error => "error"@,
        Severity::Warning => "warning"@,
        Severity::Info => "info"@,
    }
}

pub open spec fn severity_display_label(s: Severity) -> Seq<char> {
    match s {
        Severity::Error => "错误(error)"@,
        Severity::Warning => "警告(warning)"@,
        Severity::Info => "信息(info)"@,
    }
}

impl Severity {
    /// Machine-readable key (JSON, the `--severity` option, tool output).
    pub fn label(self) -> (r: &'static str)
        ensures
            r@ == severity_label(self),
    {
        match self {
            Severity::Error => "error",
            Severity::Warning => "warning",
            Severity::Info => "info",
        }
    }

    /// Label shown to people in text output.
    pub fn display_label(self) -> (r: &'static str)
        ensures
            r@ == severity_display_label(self),
    {
        match self {
            Severity::Error => "错误(error)",
            Severity::Warning => "警告(warning)",
            Severity::Info => "信息(info)",
        }
    }

    pub fn rank(self) -> (r: u8)
        ensures
            r == severity_rank(self),
    {
        match self {
            Severity::Error => 0,
            Severity::Warning => 1,
            Severity::Info => 2,
        }
    }
}

#[derive(Debug, Clone)]
pub struct Location {
    pub file: String,
    pub line: usize,
    pub column: usize,
}

#[derive(Debug, Clone)]
pub struct Finding {
    pub rule_id: &'static str,
    pub rule_name: &'static str,
    pub severity: Severity,
    pub location: Location,
    pub message: String,
    pub snippet: Option<String>,
}

/// What a finding says, as plain values.
pub struct FindingView {
    pub rule_id: Seq<char>,
    pub rule_name: Seq<char>,
    pub severity: Severity,
    pub file: Seq<char>,
    pub line: int,
    pub column: int,
    pub message: Seq<char>,
    pub snippet: Option<Seq<char>>,
}

impl View for Finding {
    type V = FindingView;

    open spec fn view(&self) -> FindingView {
        FindingView {
            rule_id: self.rule_id@,
            rule_name: self.rule_name@,
            severity: self.severity,
            file: self.location.file@,
            line: self.location.line as int,
            column: self.location.column as int,
            message: self.message@,
            snippet: match self.snippet {
                Some(s) => Some(s@),
                None => None,
            },
        }
    }
}

/// The views of a list of findings.
pub open spec fn views(s: Seq<Finding>) -> Seq<FindingView> {
    s.map_values(|f: Finding| f@)
}

/// The finding a rule reports at the start of a node: one-based line and
/// column, and the node's first line (trailing whitespace removed) as snippet.
pub open spec fn finding_at(
    rule_id: Seq<char>,
    rule_name: Seq<char>,
    severity: Severity,
    file: Seq<char>,
    tree: SyntaxTree,
    i: int,
    src: Seq<char>,
    message: Seq<char>,
) -> FindingView {
    let n = tree.nodes@[i];
    FindingView {
        rule_id,
        rule_name,
        severity,
        file,
        line: n.start_row + 1,
        column: n.start_column + 1,
        message,
        snippet: if n.start_row < lines(src).len() {
            Some(trim_end(lines(src)[n.start_row as int]))
        } else {
            None
        },
    }
}

/// A finding placed by line and column with no snippet.
pub open spec fn finding_plain(
    rule_id: Seq<char>,
    rule_name: Seq<char>,
    severity: Severity,
    file: Seq<char>,
    line: int,
    column: int,
    message: Seq<char>,
) -> FindingView {
    FindingView { rule_id, rule_name, severity, file, line, column, message, snippet: None }
}

/// A finding placed at the start of a node with no snippet.
pub open spec fn finding_at_plain(
    rule_id: Seq<char>,
    rule_name: Seq<char>,
    severity: Severity,
    file: Seq<char>,
    tree: SyntaxTree,
    i: int,
    message: Seq<char>,
) -> FindingView {
    let n = tree.nodes@[i];
    finding_plain(rule_id, rule_name, severity, file, n.start_row + 1, n.start_column + 1, message)
}

impl Finding {
    /// A finding at a given line and column.
    pub fn plain(
        rule_id: &'static str,
        rule_name: &'static str,
        severity: Severity,
        file: &str,
        line: usize,
        column: usize,
        message: Vec<char>,
        snippet: Option<Vec<char>>,
    ) -> (r: Finding)
        ensures
            r@ == (FindingView {
                rule_id: rule_id@,
                rule_name: rule_name@,
                severity,
                file: file@,
                line: line as int,
                column: column as int,
                message: message@,
                snippet: match snippet {
                    Some(v) => Some(v@),
                    None => None,
                },
            }),
    {
        let snip = match snippet {
            Some(v) => Some(string_of(&v)),
            None => None,
        };
        Finding {
            rule_id,
            rule_name,
            severity,
            location: Location { file: String::from_str(file), line, column },
            message: string_of(&message),
            snippet: snip,
        }
    }

    /// A finding at the start of node `i`, with that node's first line as snippet.
    pub fn new(
        rule_id: &'static str,
        rule_name: &'static str,
        severity: Severity,
        file: &str,
        tree: &SyntaxTree,
        i: usize,
        source: &SourceText,
        message: String,
    ) -> (r: Finding)
        requires
            tree.wf(),
            source.wf(),
            i < tree.nodes@.len(),
        ensures
            r@ == finding_at(
                rule_id@,
                rule_name@,
                severity,
                file@,
                *tree,
                i as int,
                source.chars@,
                message@,
            ),
    {
        let n = &tree.nodes[i];
        let snippet = match source.snippet(n.start_row) {
            Some(v) => Some(string_of(&v)),
            None => None,
        };
        let f = String::from_str(file);
        Finding {
            rule_id,
            rule_name,
            severity,
            location: Location { file: f, line: n.start_row + 1, column: n.start_column + 1 },
            message,
            snippet,
        }
    }

    /// A finding at the start of node `i`, with no snippet.
    pub fn at_node(
        rule_id: &'static str,
        rule_name: &'static str,
        severity: Severity,
        file: &str,
        tree: &SyntaxTree,
        i: usize,
        message: Vec<char>,
    ) -> (r: Finding)
        requires
            tree.wf(),
            i < tree.nodes@.len(),
        ensures
            r@ == finding_at_plain(rule_id@, rule_name@, severity, file@, *tree, i as int, message@),
    {
        let n = &tree.nodes[i];
        Finding {
            rule_id,
            rule_name,
            severity,
            location: Location {
                file: String::from_str(file),
                line: n.start_row + 1,
                column: n.start_column + 1,
            },
            message: string_of(&message),
            snippet: None,
        }
    }
}

impl Finding {
    /// A field-by-field copy.
    pub fn duplicate(&self) -> (r: Finding)
        ensures
            r@ == self@,
    {
        Finding {
            rule_id: self.rule_id,
            rule_name: self.rule_name,
            severity: self.severity,
            location: Location {
                file: self.location.file.clone(),
                line: self.location.line,
                column: self.location.column,
            },
            message: self.message.clone(),
            snippet: match &self.snippet {
                Some(s) => Some(s.clone()),
                None => None,
            },
        }
    }
}

} // verus!
