use codereviewer::analyzer::{
    analyze_file, is_excluded, parse_ignore_file, rule_failure_finding, skip_path, sort_findings,
    AnalysisResult, Analyzer,
};
use codereviewer::config::{Config, RuleConfig};
use codereviewer::diff::retain_new;
use codereviewer::finding::{Finding, Location, Severity};
use codereviewer::llm::LlmError;
use codereviewer::options::{
    has_errors, keep_at_least, parse_severity, requested_mask, rule_listing, select_rules, unknown_rule_ids,
    valid_format,
};
use codereviewer::parser::Language;
use codereviewer::reporter::{colorize, count_by_severity, suggestion_for, Report};
use codereviewer::rule::Rule;
use codereviewer::rules::{all_rules, WrongErrorTypePropagation};
use codereviewer::server::CodeReviewerServer;
use codereviewer::source::SourceText;
use codereviewer::ts::{parse, syntax_tree, ParseError};

const PROBLEMATIC: &str = "use std::collections::HashMap;\nuse std::io::Read;\nuse std::fmt::Debug;\n\npub fn process_data(data: &HashMap<String, i64>) -> i64 {\n    let value = data.get(\"key\", 0);\n    let result = value.unwrap_or_default();\n    let fallback = data.get(\"count\").unwrap_or(42);\n    return result + fallback;\n}\n\npub struct Config {\n    pub timeout: i64,\n    pub retries: i64,\n}\n\npub fn fetch_value() -> Option<i64> {\n    Some(1337)\n}\n\n// fn old_function() {\n//     let x = 42;\n//     println!(\"{}\", x);\n//     let y = x + 1;\n//     println!(\"{}\", y);\n//     let z = y * 2;\n//     println!(\"{}\", z);\n// }\n\n// TODO: implement proper error handling\n// FIXME: this is a hack\n\n#[test]\nfn test_simple() {\n    let result = 1 + 1;\n    assert!(result == 2);\n}\n\npub trait Storage {\n    fn read(&self, key: &str) -> String;\n    fn write(&self, key: &str, value: &str);\n}\n\nimpl Storage for HashMap<String, String> {\n    fn read(&self, key: &str) -> String {\n        self.get(key).cloned().unwrap_or_default()\n    }\n    fn write(&mut self, key: &str, value: &str) {\n        self.insert(key.to_string(), value.to_string());\n    }\n}\n\nfn main() {\n    let mut map: HashMap<String, String> = HashMap::new();\n    map.write(\"hello\", \"world\");\n    println!(\"{}\", map.read(\"hello\"));\n}\n";

fn sample_finding(rule_id: &'static str, severity: Severity, file: &str) -> Finding {
    Finding {
        rule_id,
        rule_name: "test-rule",
        severity,
        location: Location { file: file.to_string(), line: 1, column: 1 },
        message: "m".to_string(),
        snippet: Some("catch (Exception ex)".to_string()),
    }
}

fn finding(rule_id: &'static str, file: &str, line: usize) -> Finding {
    Finding {
        rule_id,
        rule_name: "r",
        severity: Severity::Warning,
        location: Location { file: file.to_string(), line, column: 1 },
        message: "m".to_string(),
        snippet: None,
    }
}

fn analyze<R: Rule>(rules: &Vec<R>, source: &str, language: Language, path: &str) -> Vec<Finding> {
    let st = syntax_tree(source, language);
    let src = SourceText::new(source);
    analyze_file(rules, &Config::default(), &src, &st, language, path)
}

fn problematic_result() -> AnalysisResult {
    let analyzer = Analyzer::new(all_rules(), Config::default());
    let mut result = AnalysisResult::new();
    let parsed = Ok((Language::Rust, PROBLEMATIC.to_string()));
    analyzer.add_file(&mut result, "tests/fixtures/problematic.rs", parsed);
    result.sorted()
}

fn problematic_findings() -> Vec<Finding> {
    problematic_result().findings
}

#[test]
fn every_finding_names_the_rule_that_reported_it() {
    let rules = all_rules();
    let findings = problematic_findings();
    assert!(!findings.is_empty());
    for f in &findings {
        assert!(rules.iter().any(|r| r.id() == f.rule_id && r.name() == f.rule_name));
    }
}

#[test]
fn severity_filter_keeps_exactly_the_severe_enough() {
    let mut fs = problematic_findings();
    let errors = fs.iter().filter(|f| f.severity == Severity::Error).count();
    keep_at_least(&mut fs, Severity::Error);
    assert_eq!(fs.len(), errors);
    assert!(fs.iter().all(|f| f.severity == Severity::Error));
}

#[test]
fn test_files_scanned_count() {
    let result = problematic_result();
    assert_eq!(result.files_scanned, 1);
    assert_eq!(result.files_skipped, 0);
}

#[test]
fn unparsed_file_is_skipped_with_its_error() {
    let analyzer = Analyzer::new(all_rules(), Config::default());
    let mut result = AnalysisResult::new();
    analyzer.add_file(&mut result, "notes.txt", Err(ParseError::UnsupportedExtension("notes.txt".to_string())));
    assert_eq!(result.files_scanned, 0);
    assert_eq!(result.files_skipped, 1);
    assert!(result.findings.is_empty());
    assert_eq!(result.parse_errors.len(), 1);
    assert_eq!(result.parse_errors[0].0, "notes.txt");
    assert_eq!(result.parse_errors[0].1.message(), "unsupported file extension: notes.txt");
}

#[test]
fn every_language_has_a_grammar_that_parses() {
    for (language, text) in [
        (Language::Rust, "fn main() {}"),
        (Language::Python, "x = 1"),
        (Language::TypeScript, "let x: number = 1;"),
        (Language::TypeScriptTsx, "const a = <div/>;"),
        (Language::CSharp, "class A {}"),
        (Language::Java, "class A {}"),
    ] {
        let mut parser = tree_sitter::Parser::new();
        assert!(parser.set_language(&language.tree_sitter_language()).is_ok());
        assert!(parse(text, language).is_ok());
    }
}

#[test]
fn test_simple() {
    let result = 1 + 1;
    assert!(result == 2);
}

#[test]
fn excludes_file_matches_file_name_substring_case_insensitive() {
    let cfg = RuleConfig {
        enabled: true,
        severity: None,
        thresholds: Vec::new(),
        exclude_files: vec!["testautomationclient".to_string()],
    };
    assert!(cfg.excludes_file("src/NavisworksTestAutomationClient.cs"));
    assert!(!cfg.excludes_file("src/Commands/AutoPathPlanningCommand.cs"));
}

#[test]
fn retain_new_keeps_only_new_findings() {
    let mut current = vec![
        finding("R01", "a.cs", 1),
        finding("R01", "a.cs", 2),
        finding("R07", "a.cs", 1),
        finding("R07", "b.cs", 5),
    ];
    let baseline: Vec<(String, usize, String)> = vec![
        ("a.cs".to_string(), 1, "R01".to_string()),
        ("a.cs".to_string(), 2, "R01".to_string()),
        ("a.cs".to_string(), 1, "R07".to_string()),
    ];
    retain_new(&mut current, &baseline);
    assert_eq!(current.len(), 1);
    assert_eq!(current[0].rule_id, "R07");
    assert_eq!(current[0].location.file, "b.cs");
}

#[test]
fn retain_new_twice_keeps_the_same() {
    let mut current = vec![finding("R01", "a.cs", 1), finding("R02", "a.cs", 1)];
    let baseline: Vec<(String, usize, String)> = vec![("a.cs".to_string(), 1, "R01".to_string())];
    retain_new(&mut current, &baseline);
    let once: Vec<&str> = current.iter().map(|f| f.rule_id).collect();
    retain_new(&mut current, &baseline);
    let twice: Vec<&str> = current.iter().map(|f| f.rule_id).collect();
    assert_eq!(once, twice);
    assert_eq!(twice, vec!["R02"]);
}

#[test]
fn markdown_report_contains_stats_and_suggestions() {
    let result = AnalysisResult {
        findings: vec![
            sample_finding("R01", Severity::Error, "a.cs"),
            sample_finding("R01", Severity::Error, "b.cs"),
            sample_finding("R01", Severity::Error, "b.cs"),
            sample_finding("R07", Severity::Warning, "c.cs"),
        ],
        files_scanned: 10,
        files_skipped: 1,
        parse_errors: vec![],
    };
    let report = Report { result };
    let md = report.render_markdown("src");
    assert!(md.contains("# CodeReviewer 报告"));
    assert!(md.contains("| error | 3 |"));
    assert!(md.contains("| warning | 1 |"));
    assert!(md.contains("**修复建议**"));
    assert!(md.contains("R01 test-rule — 3 处"));
    assert!(md.contains("b.cs — 2 处"));
    assert!(md.contains("R07 test-rule | warning | 1 |"));
}

#[test]
fn markdown_busiest_file_listed_first_and_parse_failures_shown() {
    let result = AnalysisResult {
        findings: vec![
            sample_finding("R01", Severity::Error, "src/a.cs"),
            sample_finding("R01", Severity::Error, "lib/b.cs"),
            sample_finding("R01", Severity::Error, "lib/b.cs"),
        ],
        files_scanned: 2,
        files_skipped: 1,
        parse_errors: vec![("x.rs".to_string(), ParseError::NoTree)],
    };
    let md = Report { result }.render_markdown("src");
    assert!(md.contains("## 解析失败（1 个）\n\n- x.rs：parser returned no tree\n"));
    let b = md.find("- b.cs — 2 处").expect("busiest file listed");
    let a = md.find("- a.cs — 1 处").expect("other file listed");
    assert!(b < a);
    assert!(md.contains("- src/a.cs:1 — catch (Exception ex)\n"));
    assert!(md.contains("无 error 级问题") == false);
}

#[test]
fn markdown_without_errors_says_so() {
    let result = AnalysisResult { findings: vec![], files_scanned: 0, files_skipped: 0, parse_errors: vec![] };
    let md = Report { result }.render_markdown(".");
    assert!(md.contains("无 error 级问题。"));
}

#[test]
fn text_report_lines_and_summary() {
    let result = AnalysisResult {
        findings: vec![sample_finding("R07", Severity::Warning, "c.cs")],
        files_scanned: 3,
        files_skipped: 2,
        parse_errors: vec![("bad.py".to_string(), ParseError::Io("denied".to_string()))],
    };
    let text = Report { result }.render_text();
    assert_eq!(
        text,
        "R07 警告(warning) c.cs:1:1  m\n\n发现 1 条问题（0 错误 / 1 警告 / 0 信息） | Found 1 findings (0 errors, 1 warnings, 0 infos) in 3 files，跳过 2 个 | , 2 skipped\n解析失败 bad.py：io error: denied | parse failed bad.py: io error: denied\n"
    );
}

#[test]
fn colored_text_wraps_severity() {
    let result = AnalysisResult {
        findings: vec![sample_finding("R01", Severity::Error, "a.cs")],
        files_scanned: 1,
        files_skipped: 0,
        parse_errors: vec![],
    };
    let text = Report { result }.render_text_colored();
    assert!(text.starts_with("R01 \u{1b}[31m错误(error)\u{1b}[0m a.cs:1:1  m\n"));
    assert_eq!(colorize(Severity::Info), "\u{1b}[34m信息(info)\u{1b}[0m");
}

#[test]
fn severity_counts_add_up() {
    let fs = vec![
        sample_finding("R01", Severity::Error, "a"),
        sample_finding("R02", Severity::Warning, "a"),
        sample_finding("R03", Severity::Warning, "a"),
        sample_finding("R08", Severity::Info, "a"),
    ];
    let (e, w, i) = count_by_severity(&fs);
    assert_eq!((e, w, i), (1, 2, 1));
    assert_eq!(e + w + i, fs.len());
}

#[test]
fn suggestions_known_and_unknown() {
    assert_eq!(suggestion_for("R07"), "删除未使用的 import。");
    assert_eq!(suggestion_for("R99"), "");
}

#[test]
fn sort_puts_info_first_then_file_then_line() {
    let mut a = finding("R01", "b.rs", 3);
    a.severity = Severity::Error;
    let b = finding("R02", "b.rs", 9);
    let c = finding("R03", "a.rs", 20);
    let mut d = finding("R08", "z.rs", 1);
    d.severity = Severity::Info;
    let e = finding("R04", "b.rs", 2);
    let sorted = sort_findings(&vec![a, b, c, d, e]);
    let ids: Vec<&str> = sorted.iter().map(|f| f.rule_id).collect();
    assert_eq!(ids, vec!["R08", "R03", "R04", "R02", "R01"]);
}

#[test]
fn sort_orders_paths_by_component() {
    let a = finding("R01", "a/b", 1);
    let b = finding("R02", "a.b", 1);
    let sorted = sort_findings(&vec![b, a]);
    assert_eq!(sorted[0].rule_id, "R01");
}

#[test]
fn exclude_patterns() {
    let pats = vec!["target/".to_string(), "*.generated.rs".to_string()];
    assert!(is_excluded("proj/target/debug/x.rs", &pats));
    assert!(is_excluded("src/api.generated.rs", &pats));
    assert!(!is_excluded("src/main.rs", &pats));
    // patterns name whole path parts, not substrings
    let bin = vec!["bin".to_string()];
    assert!(!is_excluded("tools/combine.py", &bin));
    assert!(is_excluded("tools/bin/run.py", &bin));
    assert!(!skip_path("tools/combine.py", &Vec::new(), &Vec::new()));
}

#[test]
fn rule_failure_is_an_info_finding() {
    let f = rule_failure_finding("R09", "commented-out-code", "x.rs", "panicked");
    assert_eq!(f.severity, Severity::Info);
    assert_eq!(f.message, "rule failed: panicked");
    assert_eq!((f.location.line, f.location.column), (1, 1));
}

#[test]
fn non_ascii_variable_is_searched_as_a_whole_word() {
    let source = "try:\n    pass\nexcept Exception as é:\n    x = éé\n    return None\n";
    let rules = vec![WrongErrorTypePropagation];
    let found = analyze(&rules, source, Language::Python, "m.py");
    assert_eq!(found.len(), 1);
    assert!(found[0].message.starts_with("宽泛 except_clause"));
    assert_eq!(found[0].rule_id, "R23");
}

#[test]
fn disabled_rule_does_not_run() {
    let rules = all_rules();
    let st = syntax_tree(PROBLEMATIC, Language::Rust);
    let src = SourceText::new(PROBLEMATIC);
    let mut off = RuleConfig {
        enabled: false,
        severity: None,
        thresholds: Vec::new(),
        exclude_files: Vec::new(),
    };
    off.enabled = false;
    let cfg = Config { global: codereviewer::config::GlobalConfig { exclude: vec![] }, rules: vec![("R08".to_string(), off)] };
    let found = analyze_file(&rules, &cfg, &src, &st, Language::Rust, "tests/fixtures/problematic.rs");
    assert!(found.iter().all(|f| f.rule_id != "R08"));
}

#[test]
fn test_problematic_finds_multiple_rule_types() {
    let findings = problematic_findings();
    let rule_ids: Vec<&str> = findings.iter().map(|f| f.rule_id).collect();
    assert!(rule_ids.contains(&"R01"), "should find R01 fallback");
    assert!(rule_ids.contains(&"R03"), "should find R03 missing doc");
    assert!(rule_ids.contains(&"R06"), "should find R06 over-engineering");
    assert!(rule_ids.contains(&"R08"), "should find R08 TODO");
    assert!(rule_ids.contains(&"R09"), "should find R09 commented code");
    assert!(!rule_ids.contains(&"R10"), "R10 should skip test files");
}

#[test]
fn test_r10_skips_test_files() {
    let findings = problematic_findings();
    let r10_count = findings.iter().filter(|f| f.rule_id == "R10").count();
    assert_eq!(r10_count, 0, "R10 should skip files under tests/ directory");
}

#[test]
fn test_problematic_has_errors() {
    let findings = problematic_findings();
    let errors: Vec<_> = findings.iter().filter(|f| f.severity == Severity::Error).collect();
    assert!(!errors.is_empty(), "should have at least one error");
    assert!(errors.iter().all(|f| f.rule_id == "R01"));
}

#[test]
fn test_list_rules_returns_all() {
    let rules = all_rules();
    assert_eq!(rules.len(), 19, "should have exactly 19 rules");
}

#[test]
fn options_severity_and_formats() {
    assert_eq!(parse_severity("WARNING"), Some(Severity::Warning));
    assert_eq!(parse_severity("info"), Some(Severity::Info));
    assert_eq!(parse_severity("fatal"), None);
    assert!(valid_format("md"));
    assert!(!valid_format("html"));
}

#[test]
fn options_keep_at_least_and_errors() {
    let mut a = finding("R01", "a", 1);
    a.severity = Severity::Error;
    let mut c = finding("R08", "a", 1);
    c.severity = Severity::Info;
    let mut fs = vec![a, finding("R02", "a", 1), c];
    assert!(has_errors(&fs));
    keep_at_least(&mut fs, Severity::Warning);
    let ids: Vec<&str> = fs.iter().map(|f| f.rule_id).collect();
    assert_eq!(ids, vec!["R01", "R02"]);
    keep_at_least(&mut fs, Severity::Info);
    assert_eq!(fs.len(), 2);
    keep_at_least(&mut fs, Severity::Error);
    assert_eq!(fs.len(), 1);
    let none: Vec<Finding> = vec![finding("R02", "a", 1)];
    assert!(!has_errors(&none));
}

#[test]
fn options_rule_selection() {
    let rules = all_rules();
    let req = vec!["R01".to_string(), "R99".to_string(), "R28".to_string()];
    assert_eq!(unknown_rule_ids(&rules, &req), vec!["R99".to_string()]);
    let mask = requested_mask(&rules, &req);
    let kept: Vec<&str> = rules.iter().zip(mask.iter()).filter(|(_, m)| **m).map(|(r, _)| r.id()).collect();
    assert_eq!(kept, vec!["R01", "R28"]);
    let listing = rule_listing(&rules);
    assert_eq!(listing[0], "R01 fallback-masks-error [错误(error)]");
    assert_eq!(listing.len(), 19);
    let selected = select_rules(rules, &vec!["R28".to_string(), "R07".to_string()]);
    let ids: Vec<&str> = selected.iter().map(|r| r.id()).collect();
    assert_eq!(ids, vec!["R07", "R28"]);
}

#[test]
fn server_lists_rules() {
    let rules = all_rules();
    let entries = CodeReviewerServer.rule_entries(&rules);
    assert_eq!(entries.len(), 19);
    assert_eq!((entries[6].0, entries[6].1, entries[6].2), ("R07", "dead-code", "warning"));
    assert_eq!(entries[6].3, vec!["rust".to_string(), "python".to_string(), "typescript".to_string(), "tsx".to_string(), "java".to_string()]);
}

#[test]
fn error_messages() {
    assert_eq!(LlmError::NotImplemented.message(), "not implemented");
    assert_eq!(ParseError::UnsupportedExtension("a.txt".to_string()).message(), "unsupported file extension: a.txt");
    assert_eq!(ParseError::SetLanguage("v".to_string()).message(), "failed to set parser language: v");
}

#[test]
fn languages_by_extension() {
    assert_eq!(Language::from_extension("tsx"), Some(Language::TypeScriptTsx));
    assert_eq!(Language::from_extension("go"), None);
    assert_eq!(Language::from_path("src/a.b/main.rs"), Some(Language::Rust));
    assert_eq!(Language::from_path("src/.rs"), None);
    assert_eq!(Language::CSharp.name(), "csharp");
}

#[test]
fn default_directories_and_ignore_file_skip_paths() {
    let ignore = parse_ignore_file("# build output\n\n*.log\ngenerated/\n!keep.log\n  docs  \n");
    assert_eq!(ignore, vec!["*.log".to_string(), "generated/".to_string(), "docs".to_string()]);
    let none: Vec<String> = Vec::new();
    assert!(skip_path("web/node_modules/x/index.ts", &none, &none));
    assert!(skip_path("proj/target", &none, &none));
    assert!(!skip_path("src/main.rs", &none, &none));
    assert!(skip_path("src/generated/api.rs", &none, &ignore));
    assert!(skip_path("logs/run.log", &none, &ignore));
    assert!(skip_path("docs/guide.py", &none, &ignore));
    assert!(!skip_path("src/docsite.py", &none, &ignore));
}

#[test]
fn sorting_and_filtering_twice_change_nothing_more() {
    let once = problematic_findings();
    let twice = sort_findings(&once);
    let key = |f: &Finding| (f.rule_id, f.location.file.clone(), f.location.line, f.location.column);
    assert_eq!(once.iter().map(key).collect::<Vec<_>>(), twice.iter().map(key).collect::<Vec<_>>());
    let mut a = problematic_findings();
    keep_at_least(&mut a, Severity::Warning);
    let mut b = a.iter().map(|f| f.duplicate()).collect::<Vec<_>>();
    keep_at_least(&mut b, Severity::Warning);
    assert_eq!(a.len(), b.len());
    assert!(a.iter().all(|f| f.severity != Severity::Info));
}

#[test]
fn registry_ids_severities_and_suggestions() {
    let rules = all_rules();
    let ids: Vec<&str> = rules.iter().map(|r| r.id()).collect();
    assert_eq!(
        ids,
        vec![
            "R01", "R02", "R03", "R04", "R05", "R06", "R07", "R08", "R09", "R10", "R14", "R15",
            "R16", "R18", "R19", "R20", "R23", "R24", "R28"
        ]
    );
    for r in &rules {
        let expected = match r.id() {
            "R01" | "R14" | "R18" => Severity::Error,
            "R06" | "R08" | "R10" | "R28" => Severity::Info,
            _ => Severity::Warning,
        };
        assert_eq!(r.severity(), expected);
        assert!(!suggestion_for(r.id()).is_empty());
    }
    assert_eq!(suggestion_for("R11"), "");
    assert_eq!(suggestion_for(""), "");
}

#[test]
fn syntax_tree_is_tree_sitters_parse_in_pre_order() {
    let st = syntax_tree(PROBLEMATIC, Language::Rust);
    let mut parser = tree_sitter::Parser::new();
    parser.set_language(&Language::Rust.tree_sitter_language()).unwrap();
    let tree = parser.parse(PROBLEMATIC, None).unwrap();
    // pre-order of tree-sitter's nodes with each node's parent position
    let mut expected: Vec<(String, usize, usize, Option<usize>)> = Vec::new();
    let mut stack: Vec<(tree_sitter::Node, Option<usize>)> = vec![(tree.root_node(), None)];
    while let Some((n, parent)) = stack.pop() {
        let here = expected.len();
        expected.push((n.kind().to_string(), n.start_byte(), n.end_byte(), parent));
        let mut c = n.walk();
        let children: Vec<_> = n.children(&mut c).collect();
        for ch in children.into_iter().rev() {
            stack.push((ch, Some(here)));
        }
    }
    assert_eq!(st.nodes.len(), expected.len());
    for (i, (kind, sb, eb, parent)) in expected.iter().enumerate() {
        let n = &st.nodes[i];
        assert_eq!(n.kind.iter().collect::<String>(), *kind);
        assert_eq!((n.start_byte, n.end_byte, n.parent), (*sb, *eb, *parent));
        if let Some(p) = parent {
            assert!(st.nodes[*p].children.contains(&i));
        }
    }
    assert_eq!(st.nodes[0].kind.iter().collect::<String>(), "source_file");
}

#[test]
fn markdown_lists_at_most_five_busiest_files() {
    let files = ["a.cs", "b.cs", "c.cs", "d.cs", "e.cs", "f.cs", "f.cs"];
    let result = AnalysisResult {
        findings: files.iter().map(|f| sample_finding("R01", Severity::Error, f)).collect(),
        files_scanned: 6,
        files_skipped: 0,
        parse_errors: vec![],
    };
    let md = Report { result }.render_markdown("src");
    let f = md.find("- f.cs — 2 处").expect("busiest file first");
    let a = md.find("- a.cs — 1 处").expect("first single file listed");
    let d = md.find("- d.cs — 1 处").expect("fourth single file listed");
    assert!(f < a && a < d);
    assert!(!md.contains("- e.cs — 1 处"));
}

#[test]
fn every_file_is_counted_once_and_findings_only_grow() {
    let analyzer = Analyzer::new(all_rules(), Config::default());
    let mut result = AnalysisResult::new();
    analyzer.add_file(&mut result, "src/a.rs", Ok((Language::Rust, PROBLEMATIC.to_string())));
    let after_first = result.findings.len();
    assert!(after_first > 0);
    analyzer.add_file(&mut result, "notes.txt", Err(ParseError::UnsupportedExtension("notes.txt".to_string())));
    analyzer.add_file(&mut result, "src/b.rs", Ok((Language::Rust, "fn ok() {}\n".to_string())));
    assert_eq!(result.files_scanned + result.files_skipped, 3);
    assert_eq!(result.files_scanned, 2);
    assert!(result.parse_errors.len() <= result.files_skipped);
    assert!(result.findings.len() >= after_first);
    assert!(!result.findings.iter().any(|f| f.message.starts_with("rule failed")));
    let sorted = result.sorted();
    assert_eq!(sorted.files_scanned, 2);
}

#[test]
fn markdown_error_groups_in_order_of_first_appearance() {
    let result = AnalysisResult {
        findings: vec![
            sample_finding("R14", Severity::Error, "a.cs"),
            sample_finding("R01", Severity::Error, "b.cs"),
            sample_finding("R14", Severity::Error, "c.cs"),
        ],
        files_scanned: 3,
        files_skipped: 0,
        parse_errors: vec![],
    };
    let md = Report { result }.render_markdown("src");
    let r14 = md.find("### R14 test-rule — 2 处").expect("R14 group");
    let r01 = md.find("### R01 test-rule — 1 处").expect("R01 group");
    assert!(r14 < r01);
    assert_eq!(md.matches("### R14").count(), 1);
}
