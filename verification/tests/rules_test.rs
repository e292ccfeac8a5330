use codereviewer::config::RuleConfig;
use codereviewer::finding::{Finding, Severity};
use codereviewer::parser::Language;
use codereviewer::rule::{AnalysisContext, Rule};
use codereviewer::rules::r07_dead_code::extract_import_names;
use codereviewer::rules::{
    AsyncMissingAwait, CommentedCode, DeadCode, FallbackMasksError, HardcodedPathOrUrl,
    HardcodedSecret, MagicNumber, MissingDoc, MissingInputValidation, NPlusOneQuery,
    OverEngineering, OverlyDefensiveHandling, ResourceLeak, SelfValidatingTest,
    ShallowIntegration, SimpleUnitTest, StructuralBloat, TodoFixme, WrongErrorTypePropagation,
};
use codereviewer::ast::{contains_word, line_of};
use codereviewer::rules::common::{body_uses_word, exception_var, is_broad_catch, returns_generic};
use codereviewer::source::SourceText;
use codereviewer::ts::{parse, syntax_tree};

fn analyze_at(rule: &dyn Rule, source: &str, language: Language, path: &str, cfg: &RuleConfig) -> Vec<Finding> {
    let st = syntax_tree(source, language);
    let src = SourceText::new(source);
    let ctx = AnalysisContext {
        source: &src,
        tree: &st,
        language,
        file_path: path,
        rule_config: cfg,
    };
    rule.analyze(&ctx).expect("rule should succeed")
}

fn analyze_source(rule: &dyn Rule, source: &str, language: Language) -> Vec<Finding> {
    analyze_at(rule, source, language, "src/input", &RuleConfig::default())
}

fn names(v: Vec<String>) -> Vec<String> {
    v
}

fn strings(v: &[&str]) -> Vec<String> {
    v.iter().map(|s| s.to_string()).collect()
}

// R01

#[test]
fn catch_with_logging_is_info() {
    let source = "public class A { public int M() { try { return 1; } catch (Exception ex) { LogManager.Error(ex); return 0; } } }";
    let findings = analyze_source(&FallbackMasksError, source, Language::CSharp);
    assert_eq!(findings.len(), 1);
    assert_eq!(findings[0].severity, Severity::Info);
}

#[test]
fn catch_without_logging_is_error() {
    let source = "public class A { public int M() { try { return 1; } catch (Exception ex) { return 0; } } }";
    let findings = analyze_source(&FallbackMasksError, source, Language::CSharp);
    assert_eq!(findings.len(), 1);
    assert_eq!(findings[0].severity, Severity::Error);
}

#[test]
fn rust_unwrap_or_is_reported_with_snippet() {
    let source = "fn f(x: Option<i32>) -> i32 {\n    x.unwrap_or(3)\n}\n";
    let findings = analyze_source(&FallbackMasksError, source, Language::Rust);
    assert_eq!(findings.len(), 1);
    assert_eq!(findings[0].rule_id, "R01");
    assert_eq!(findings[0].location.line, 2);
    assert_eq!(findings[0].location.column, 5);
    assert_eq!(findings[0].snippet.as_deref(), Some("    x.unwrap_or(3)"));
    assert!(findings[0].message.contains("unwrap_or()"));
}

#[test]
fn python_bare_except_is_error() {
    let source = "try:\n    f()\nexcept:\n    pass\n";
    let findings = analyze_source(&FallbackMasksError, source, Language::Python);
    assert_eq!(findings.len(), 1);
    assert_eq!(findings[0].severity, Severity::Error);
}

// R02

#[test]
fn long_function_and_many_parameters_reported() {
    let mut source = String::from("fn big(a: i32, b: i32, c: i32, d: i32, e: i32, f: i32) {\n");
    for k in 0..60 {
        source.push_str(&format!("    let x{} = {};\n", k, k));
    }
    source.push_str("}\n");
    let findings = analyze_source(&StructuralBloat::default(), &source, Language::Rust);
    assert_eq!(findings.len(), 2);
    assert!(findings[0].message.contains("function too long: 62 lines (max 50)"));
    assert!(findings[1].message.contains("too many parameters: 6 (max 5)"));
}

#[test]
fn deep_nesting_reported() {
    let source = "fn f(x: i32) {\n    if x > 0 { if x > 1 { if x > 2 { if x > 3 { g(); } } } }\n}\n";
    let findings = analyze_source(&StructuralBloat::default(), source, Language::Rust);
    assert_eq!(findings.len(), 1);
    assert!(findings[0].message.contains("nesting too deep"));
}

// R03

#[test]
fn csharp_doc_comments_are_recognized() {
    let source = "/// <summary>有文档</summary>\npublic class Documented\n{\n    /// <summary>方法文档</summary>\n    public void WithDoc() { }\n    public void WithoutDoc() { }\n}\n";
    let findings = analyze_source(&MissingDoc, source, Language::CSharp);
    assert_eq!(findings.len(), 1, "只有无文档的方法应被报");
    assert!(findings[0].message.contains("method_declaration"));
}

// R04

#[test]
fn rust_test_without_assertions_reported() {
    let source = "#[test]\nfn test_nothing() {\n    let x = 1;\n}\n\n#[test]\nfn test_checks() {\n    assert_eq!(1, 1);\n}\n";
    let findings = analyze_source(&SimpleUnitTest, source, Language::Rust);
    assert_eq!(findings.len(), 1);
    assert_eq!(
        findings[0].message,
        "测试 'test_nothing' 仅有 0 条断言（下限 1） | test 'test_nothing' has only 0 assertion(s) (min 1)"
    );
}

#[test]
fn ts_test_call_counts_expect_calls() {
    let source = "test('adds', () => {\n  const x = 1;\n});\nit('works', () => {\n  expect(add(1, 2)).toBe(3);\n});\n";
    let findings = analyze_source(&SimpleUnitTest, source, Language::TypeScript);
    assert_eq!(findings.len(), 1);
    assert!(findings[0].message.contains("test 'test' has only 0"));
}

// R05

#[test]
fn status_only_integration_test_reported() {
    let source = "def test_api_integration(client):\n    response = client.get('/api/items')\n    assert response.status_code == 200\n";
    let findings = analyze_source(&ShallowIntegration, source, Language::Python);
    assert_eq!(findings.len(), 1);
    assert_eq!(findings[0].message, "integration test has only 1 meaningful check(s) (min 3)");
}

// R06

#[test]
fn single_impl_trait_reported() {
    let source = "pub trait Storage {\n    fn read(&self) -> i32;\n}\n\nimpl Storage for Disk {\n    fn read(&self) -> i32 { 1 }\n}\n";
    let findings = analyze_source(&OverEngineering, source, Language::Rust);
    assert_eq!(findings.len(), 1);
    assert_eq!(findings[0].severity, Severity::Info);
    assert!(findings[0].message.contains("trait Storage has only 1 implementation(s)"));
}

#[test]
fn many_generics_reported() {
    let source = "fn f<A, B, C, D>(a: A, b: B, c: C, d: D) {}\n";
    let findings = analyze_source(&OverEngineering, source, Language::Rust);
    assert_eq!(findings.len(), 1);
    assert!(findings[0].message.contains("excessive generics: 4 type parameters (max 3)"));
}

// R07

#[test]
fn python_dotted_import_takes_top_module() {
    assert_eq!(names(extract_import_names("import os.path", Language::Python)), strings(&["os"]));
    assert_eq!(names(extract_import_names("import os.path as p", Language::Python)), strings(&["p"]));
    assert_eq!(names(extract_import_names("import os, sys", Language::Python)), strings(&["os", "sys"]));
    assert_eq!(
        names(extract_import_names("from x import a, b as c", Language::Python)),
        strings(&["a", "c"])
    );
}

#[test]
fn ts_default_and_namespace_imports_extract_binding() {
    assert_eq!(
        extract_import_names("import React from \"react\"", Language::TypeScript),
        strings(&["React"])
    );
    assert_eq!(extract_import_names("import * as ns from \"x\"", Language::TypeScript), strings(&["ns"]));
    assert_eq!(
        extract_import_names("import { a, b as c } from \"x\"", Language::TypeScript),
        strings(&["a", "c"])
    );
    assert_eq!(extract_import_names("import \"side-effect\"", Language::TypeScript), Vec::<String>::new());
    assert_eq!(extract_import_names("import type { x } from \"x\"", Language::TypeScript), strings(&["x"]));
    assert_eq!(
        extract_import_names("import React, { useState } from \"react\"", Language::TypeScript),
        strings(&["React", "useState"])
    );
}

#[test]
fn java_wildcard_import_is_skipped() {
    assert_eq!(extract_import_names("import java.util.*;", Language::Java), Vec::<String>::new());
    assert_eq!(extract_import_names("import java.util.List;", Language::Java), strings(&["List"]));
}

#[test]
fn rust_and_csharp_import_names() {
    assert_eq!(extract_import_names("use std::collections::HashMap;", Language::Rust), strings(&["HashMap"]));
    assert_eq!(extract_import_names("use std::io::*;", Language::Rust), Vec::<String>::new());
    assert_eq!(extract_import_names("using System.Text;", Language::CSharp), strings(&["Text"]));
}

#[test]
fn unused_import_reported_used_one_not() {
    let source = "import os\nimport sys\n\nprint(os.getcwd())\n";
    let findings = analyze_source(&DeadCode, source, Language::Python);
    assert_eq!(findings.len(), 1);
    assert_eq!(findings[0].location.line, 2);
    assert_eq!(findings[0].message, "未使用的 import：sys | unused import: sys");
}

// R08

#[test]
fn todo_lines_reported_with_trimmed_snippet() {
    let source = "fn f() {}\n    // TODO: later\n// fixme soon\n";
    let findings = analyze_source(&TodoFixme, source, Language::Rust);
    assert_eq!(findings.len(), 2);
    assert_eq!(findings[0].location.line, 2);
    assert_eq!(findings[0].snippet.as_deref(), Some("// TODO: later"));
    assert_eq!(findings[1].location.line, 3);
}

// R09

#[test]
fn doc_marker_lines_not_counted_as_code() {
    let source = "// 注意：不要删除\n// var x = 1;\n// var y = 2;\n";
    assert!(analyze_source(&CommentedCode, source, Language::CSharp).is_empty());
}

#[test]
fn consecutive_code_lines_still_flagged() {
    let source = "// var x = 1;\n// var y = 2;\n// var z = 3;\n";
    let findings = analyze_source(&CommentedCode, source, Language::CSharp);
    assert_eq!(findings.len(), 1);
}

// R10

#[test]
fn magic_number_reported_common_values_not() {
    let source = "fn f() -> i32 {\n    let a = 1;\n    let b = 42;\n    b + a\n}\n";
    let findings = analyze_source(&MagicNumber, source, Language::Rust);
    assert_eq!(findings.len(), 1);
    assert_eq!(findings[0].message, "magic literal: 42");
}

#[test]
fn magic_number_skipped_in_test_files() {
    let source = "fn f() -> i32 { 42 }\n";
    let findings = analyze_at(&MagicNumber, source, Language::Rust, "tests/fixtures/x.rs", &RuleConfig::default());
    assert!(findings.is_empty());
}

#[test]
fn hash_seed_not_magic() {
    let source = "class A { public override int GetHashCode() { return 17 * 31; } }";
    let findings = analyze_source(&MagicNumber, source, Language::CSharp);
    assert!(findings.is_empty());
}

// R14

#[test]
fn known_key_prefix_reported() {
    let source = "let key = \"sk-abcdefghijklmnop\";\n";
    let findings = analyze_source(&HardcodedSecret, source, Language::Rust);
    assert_eq!(findings.len(), 1);
    assert_eq!(findings[0].message, "疑似硬编码密钥（已知密钥前缀） | suspected hardcoded secret (known key prefix)");
}

#[test]
fn high_entropy_needs_secret_name() {
    let named = "api_token = \"aZ3kQ9xL2mP7vR4tY8wB\"\n";
    let plain = "greeting = \"aZ3kQ9xL2mP7vR4tY8wB\"\n";
    let a = analyze_source(&HardcodedSecret, named, Language::Python);
    let b = analyze_source(&HardcodedSecret, plain, Language::Python);
    assert_eq!(a.len(), 1);
    assert!(a[0].message.contains("high-entropy string"));
    assert!(b.is_empty());
}

// R15

#[test]
fn variable_index_without_guard_reported() {
    let source = "pub fn pick(items: &[i32], i: usize) -> i32 {\n    items[i]\n}\n";
    let findings = analyze_source(&MissingInputValidation, source, Language::Rust);
    assert_eq!(findings.len(), 1);
    assert!(findings[0].message.contains("on param items"));
}

#[test]
fn guarded_function_not_reported() {
    let source = "pub fn pick(items: &[i32], i: usize) -> i32 {\n    if items.is_empty() { return 0; }\n    items[i]\n}\n";
    assert!(analyze_source(&MissingInputValidation, source, Language::Rust).is_empty());
}

// R16

#[test]
fn vague_test_name_reported() {
    let source = "def test_parse():\n    assert parse('1') == 1\n";
    let findings = analyze_source(&SelfValidatingTest, source, Language::Python);
    assert_eq!(findings.len(), 1);
    assert!(findings[0].message.contains("test 'test_parse' name describes method not behavior"));
}

#[test]
fn private_member_access_reported() {
    let source = "def test_parse_when_empty(self):\n    assert self._cache == {}\n";
    let findings = analyze_source(&SelfValidatingTest, source, Language::Python);
    assert_eq!(findings.len(), 1);
    assert!(findings[0].message.contains("private member 'cache'"));
}

// R18

#[test]
fn python_unawaited_async_call_reported() {
    let source = "async def fetch():\n    return 1\n\nasync def main():\n    x = fetch()\n    y = await fetch()\n";
    let findings = analyze_source(&AsyncMissingAwait, source, Language::Python);
    assert_eq!(findings.len(), 1);
    assert_eq!(findings[0].location.line, 5);
    assert!(findings[0].message.contains("call to async function fetch without await, returns coroutine"));
}

// R19

#[test]
fn python_loop_over_queryset_reported() {
    let source = "for book in Book.objects.all():\n    print(book.author)\n";
    let findings = analyze_source(&NPlusOneQuery, source, Language::Python);
    assert_eq!(findings.len(), 1);
}

#[test]
fn prefetched_queryset_not_reported() {
    let source = "for book in Book.objects.select_related('author'):\n    print(book.author)\n";
    assert!(analyze_source(&NPlusOneQuery, source, Language::Python).is_empty());
}

// R20

#[test]
fn open_without_close_reported() {
    let source = "def read(path):\n    f = open(path)\n    return f.read()\n";
    let findings = analyze_source(&ResourceLeak, source, Language::Python);
    assert_eq!(findings.len(), 1);
}

#[test]
fn open_in_with_not_reported() {
    let source = "def read(path):\n    with open(path) as f:\n        return f.read()\n";
    assert!(analyze_source(&ResourceLeak, source, Language::Python).is_empty());
}

// R23

#[test]
fn broad_except_unused_var_flagged() {
    let source = "def f():\n    try:\n        pass\n    except Exception as e:\n        return None\n";
    let findings = analyze_source(&WrongErrorTypePropagation, source, Language::Python);
    assert_eq!(findings.len(), 1);
    assert_eq!(findings[0].rule_id, "R23");
}

#[test]
fn broad_except_var_used_not_flagged() {
    let source = "def f():\n    try:\n        pass\n    except Exception as e:\n        print(e)\n        return None\n";
    let findings = analyze_source(&WrongErrorTypePropagation, source, Language::Python);
    assert!(findings.is_empty());
}

// R24

#[test]
fn hardcoded_urls_reported_localhost_too() {
    let source = "let a = \"https://api.example.com/v1\";\nlet b = \"http://localhost:3000\";\n";
    let findings = analyze_source(&HardcodedPathOrUrl, source, Language::Rust);
    assert_eq!(findings.len(), 2);
    assert!(findings.iter().any(|f| f.message.contains("hardcoded URL: http://localhost:3000")));
    assert!(findings.iter().any(|f| f.message
        == "硬编码URL：https://api.example.com/v1 | hardcoded URL: https://api.example.com/v1"));
}

#[test]
fn absolute_path_reported_but_not_near_env() {
    let source = "let a = \"/var/log/app.log\";\nlet b = std::env::var(\"X\").unwrap_or(\"/etc/app/config\".into());\n";
    let findings = analyze_source(&HardcodedPathOrUrl, source, Language::Rust);
    assert_eq!(findings.len(), 1);
    assert!(findings[0].message.contains("hardcoded path: /var/log/app.log"));
}

// R28

#[test]
fn unwrap_or_on_some_reported() {
    let source = "fn f() -> i32 {\n    Some(3).unwrap_or(0)\n}\n";
    let findings = analyze_source(&OverlyDefensiveHandling, source, Language::Rust);
    assert_eq!(findings.len(), 1);
    assert_eq!(
        findings[0].message,
        "对 Some(3) 调用 unwrap_or 是过度防御——该值类型上保证不可失败 | unwrap_or on Some(3) is overly defensive — value cannot fail"
    );
}

#[test]
fn nullish_operator_parses_as_binary_expression() {
    // the grammar has no `nullish_coalescing_expression` node, so `??` is never matched
    let source = "const x = \"a\" ?? \"b\";\n";
    let findings = analyze_source(&OverlyDefensiveHandling, source, Language::TypeScript);
    assert!(findings.is_empty());
}

fn first_node_of_kind(tree: &codereviewer::syntax::SyntaxTree, kind: &str) -> usize {
    tree.nodes
        .iter()
        .position(|n| n.kind.iter().collect::<String>() == kind)
        .expect("node kind should occur")
}

#[test]
fn catch_clause_helpers_read_the_java_catch() {
    let source = "class A { int f() { try { g(); } catch (Exception ex) { return null; } } }";
    let st = syntax_tree(source, Language::Java);
    let src = SourceText::new(source);
    let cfg = RuleConfig::default();
    let ctx = AnalysisContext { source: &src, tree: &st, language: Language::Java, file_path: "A.java", rule_config: &cfg };
    let node = first_node_of_kind(&st, "catch_clause");
    // Java keeps the variable inside catch_formal_parameter, below the clause's children
    assert_eq!(exception_var(node, &ctx), "");
    assert!(is_broad_catch(node, &ctx));
    assert!(returns_generic(node, &ctx));
}

#[test]
fn catch_clause_helpers_read_the_csharp_catch() {
    let source = "class A { object F() { try { G(); } catch (Exception ex) { return null; } } }";
    let st = syntax_tree(source, Language::CSharp);
    let src = SourceText::new(source);
    let cfg = RuleConfig::default();
    let ctx = AnalysisContext { source: &src, tree: &st, language: Language::CSharp, file_path: "A.cs", rule_config: &cfg };
    let node = first_node_of_kind(&st, "catch_clause");
    assert_eq!(exception_var(node, &ctx), "ex");
    assert!(is_broad_catch(node, &ctx));
    assert!(returns_generic(node, &ctx));
}

#[test]
fn narrow_python_except_is_not_broad() {
    let source = "try:\n    f()\nexcept ValueError as err:\n    print(err)\n";
    let st = syntax_tree(source, Language::Python);
    let src = SourceText::new(source);
    let cfg = RuleConfig::default();
    let ctx = AnalysisContext { source: &src, tree: &st, language: Language::Python, file_path: "a.py", rule_config: &cfg };
    let node = first_node_of_kind(&st, "except_clause");
    assert_eq!(exception_var(node, &ctx), "err");
    assert!(!is_broad_catch(node, &ctx));
    assert!(!returns_generic(node, &ctx));
}

#[test]
fn body_uses_word_reads_after_the_header() {
    assert!(body_uses_word("except Exception as e:\n    print(e)", "e"));
    assert!(!body_uses_word("except Exception as e:\n    return None", "e"));
    assert!(body_uses_word("catch (Exception ex) { log(ex); }", "ex"));
}

#[test]
fn line_of_gives_the_numbered_line() {
    let src = SourceText::new("a\nbb\nccc");
    assert_eq!(line_of(&src, 0), "a");
    assert_eq!(line_of(&src, 1), "bb");
    assert_eq!(line_of(&src, 2), "ccc");
    assert_eq!(line_of(&src, 3), "");
}

#[test]
fn contains_word_respects_boundaries() {
    assert!(contains_word("print(e)", "e"));
    assert!(!contains_word("return", "e"));
    assert!(!contains_word("error", "e"));
    assert!(contains_word("log_error(e)", "e"));
}

#[test]
fn whole_words_only() {
    assert!(!contains_word("free", "e"));
    assert!(contains_word("free e", "e"));
    assert!(!contains_word("", "e"));
}

#[test]
fn clause_body_starts_at_the_header_end() {
    assert!(body_uses_word("catch (Exception ex) { return ex != null ? 1 : 0; }", "ex"));
    assert!(!body_uses_word("except Exception as err:\n    return {'k': 1}", "err"));
}

#[test]
fn cancellation_catch_is_not_a_fallback() {
    let source = "class A { int M() { try { return F(); } catch (OperationCanceledException) { return 0; } } }";
    assert!(analyze_source(&FallbackMasksError, source, Language::CSharp).is_empty());
    let other = "class A { int M() { try { return F(); } catch (Exception) { return 0; } } }";
    assert_eq!(analyze_source(&FallbackMasksError, other, Language::CSharp).len(), 1);
}

#[test]
fn csharp_catch_variable_and_narrow_types() {
    let used = "class A { object M() { try { return F(); } catch (Exception ex) { Log(ex); return null; } } }";
    let narrow = "class A { object M() { try { return F(); } catch (IOException) { return null; } } }";
    let broad = "class A { object M() { try { return F(); } catch (Exception) { return null; } } }";
    assert!(analyze_source(&WrongErrorTypePropagation, used, Language::CSharp).is_empty());
    assert!(analyze_source(&WrongErrorTypePropagation, narrow, Language::CSharp).is_empty());
    assert_eq!(analyze_source(&WrongErrorTypePropagation, broad, Language::CSharp).len(), 1);
}

#[test]
fn float_and_two_are_magic() {
    let source = "fn f() -> f64 {\n    let r = 3.14;\n    let k = 2;\n    let z = 0;\n    r * k as f64\n}\n";
    let findings = analyze_source(&MagicNumber, source, Language::Rust);
    let mut texts: Vec<&str> = findings.iter().map(|f| f.message.as_str()).collect();
    texts.sort();
    assert_eq!(texts, vec!["magic literal: 2", "magic literal: 3.14"]);
}

#[test]
fn trailing_test_name_is_vague() {
    let source = "class A { @Test void fooTest() { assertEquals(1, f()); } }";
    let findings = analyze_source(&SelfValidatingTest, source, Language::Java);
    assert_eq!(findings.len(), 1);
    assert!(findings[0].message.contains("fooTest"));
}

#[test]
fn high_entropy_needs_twenty_characters() {
    let short = "api_token = \"aZ3kQ9xL2mP7vR4t\"\n";
    assert!(analyze_source(&HardcodedSecret, short, Language::Python).is_empty());
}

#[test]
fn string_literals_are_never_magic_numbers() {
    let source = "fn f() -> &'static str {\n    let s = \"42\";\n    s\n}\n";
    let findings = analyze_source(&MagicNumber, source, Language::Rust);
    assert!(findings.is_empty());
}

#[test]
fn high_entropy_shorter_than_twenty_not_reported() {
    let short = "api_token = \"aZ3kQ9xL2mP7vR4tY8w\"\n";
    let long = "api_token = \"aZ3kQ9xL2mP7vR4tY8wB\"\n";
    assert!(analyze_source(&HardcodedSecret, short, Language::Python).is_empty());
    assert_eq!(analyze_source(&HardcodedSecret, long, Language::Python).len(), 1);
}

#[test]
fn function_within_line_limit_not_reported() {
    let mut body = String::from("fn f() {\n");
    for _ in 0..48 {
        body.push_str("    let x = 1;\n");
    }
    body.push_str("}\n");
    let ok = analyze_source(&StructuralBloat::default(), &body, Language::Rust);
    assert!(ok.is_empty());
    let mut long = String::from("fn f() {\n");
    for _ in 0..49 {
        long.push_str("    let x = 1;\n");
    }
    long.push_str("}\n");
    let found = analyze_source(&StructuralBloat::default(), &long, Language::Rust);
    assert_eq!(found.len(), 1);
    assert_eq!(found[0].message, "函数过长：51 行（上限 50） | function too long: 51 lines (max 50)");
}
