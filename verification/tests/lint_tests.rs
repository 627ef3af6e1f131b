//! End-to-end tests: Solidity sources through the real parsing engine.

use storage_lint::pipeline::{LintError, SourceFile, lint_files, lint_source};
use storage_lint::records::Diagnostic;

const VERSION: &str = "0.8.26";

fn lint_ok(text: &str) -> Vec<Diagnostic> {
    lint_source(&String::from(text), &String::from(VERSION)).expect("source should parse")
}

#[test]
fn duplicate_qualified_access_reported_once() {
    let diags = lint_ok("contract C { function f() public { s.a; s.a; } }");
    assert_eq!(diags.len(), 1);
    assert_eq!(diags[0].function, "f");
    assert_eq!(diags[0].member, "s.a");
}

#[test]
fn distinct_qualified_accesses_stay_silent() {
    let diags = lint_ok("contract C { function g() public { s.a; s.b; } }");
    assert!(diags.is_empty());
}

#[test]
fn chained_access_is_truncated_to_first_member() {
    let diags = lint_ok("contract C { function foo() public { s.a.b = 1; s.a.c = 2; } }");
    assert_eq!(diags.len(), 1);
    assert_eq!(diags[0].function, "foo");
    assert_eq!(diags[0].member, "s.a");
}

#[test]
fn single_chained_access_stays_silent() {
    let diags = lint_ok("contract C { function foo() public { s.a.b = 1; } }");
    assert!(diags.is_empty());
}

#[test]
fn marked_alias_read_twice_reported() {
    let diags = lint_ok("contract C { function f() public { _x; _x; } }");
    assert_eq!(diags.len(), 1);
    assert_eq!(diags[0].function, "f");
    assert_eq!(diags[0].member, "_x");
}

#[test]
fn unmarked_identifier_read_twice_stays_silent() {
    let diags = lint_ok("contract C { function f() public { x; x; } }");
    assert!(diags.is_empty());
}

#[test]
fn callee_called_twice_stays_silent() {
    let diags = lint_ok("contract C { function f() public { _foo(); _foo(); } }");
    assert!(diags.is_empty());
}

#[test]
fn callee_name_used_twice_as_expression_reported() {
    let diags = lint_ok("contract C { function f() public { _foo; _foo; } }");
    assert_eq!(diags.len(), 1);
    assert_eq!(diags[0].member, "_foo");
}

#[test]
fn same_member_in_two_functions_stays_silent() {
    let diags = lint_ok(
        "contract C { function f() public { s.a; } function g() public { s.a; } }",
    );
    assert!(diags.is_empty());
}

#[test]
fn syntax_error_reports_parse_issue_and_no_findings() {
    let r = lint_source(
        &String::from("contract C { function f( { s.a; s.a; }"),
        &String::from(VERSION),
    );
    match r {
        Err(LintError::ParseFailed { issues }) => assert!(!issues.is_empty()),
        _ => panic!("expected a parse failure"),
    }
}

#[test]
fn broken_file_does_not_affect_other_files() {
    let files = vec![
        SourceFile {
            path: String::from("bad.sol"),
            text: String::from("contract C { function f( {"),
        },
        SourceFile {
            path: String::from("good.sol"),
            text: String::from("contract C { function f() public { s.a; s.a; } }"),
        },
    ];
    let reports = lint_files(&files, &String::from(VERSION));
    assert_eq!(reports.len(), 2);
    assert!(matches!(reports[0].result, Err(LintError::ParseFailed { .. })));
    let good = reports[1].result.as_ref().expect("good file should parse");
    assert_eq!(good.len(), 1);
    assert_eq!(good[0].member, "s.a");
}

#[test]
fn file_order_does_not_change_the_diagnostic_set() {
    let one = SourceFile {
        path: String::from("one.sol"),
        text: String::from("contract C { function f() public { s.a; s.a; } }"),
    };
    let two = SourceFile {
        path: String::from("two.sol"),
        text: String::from("contract D { function g() public { _y; _y; } }"),
    };
    let copy = |f: &SourceFile| SourceFile { path: f.path.clone(), text: f.text.clone() };
    let forward = lint_files(&vec![copy(&one), copy(&two)], &String::from(VERSION));
    let backward = lint_files(&vec![two, one], &String::from(VERSION));
    let mut fwd: Vec<(String, String, String)> = Vec::new();
    for r in &forward {
        for d in r.result.as_ref().unwrap() {
            fwd.push((r.path.clone(), d.function.clone(), d.member.clone()));
        }
    }
    let mut bwd: Vec<(String, String, String)> = Vec::new();
    for r in &backward {
        for d in r.result.as_ref().unwrap() {
            bwd.push((r.path.clone(), d.function.clone(), d.member.clone()));
        }
    }
    fwd.sort();
    bwd.sort();
    assert_eq!(fwd, bwd);
}

#[test]
fn same_function_name_in_two_contracts_reports_each() {
    let diags = lint_ok(
        "contract C { function f() public { s.a; s.a; } } \
         contract D { function f() public { s.a; s.a; } }",
    );
    assert_eq!(diags.len(), 2);
    assert_eq!(diags[0].function, "f");
    assert_eq!(diags[1].function, "f");
    assert_ne!(diags[0].function_offset, diags[1].function_offset);
}

#[test]
fn diagnostic_carries_the_function_line() {
    let diags = lint_ok("contract C {\n    function f() public {\n        s.a;\n        s.a;\n    }\n}\n");
    assert_eq!(diags.len(), 1);
    assert_eq!(diags[0].line, 1);
}

#[test]
fn empty_source_has_no_findings() {
    let diags = lint_ok("");
    assert!(diags.is_empty());
}

#[test]
fn empty_file_list_gives_no_reports() {
    let reports = lint_files(&Vec::new(), &String::from(VERSION));
    assert!(reports.is_empty());
}

#[test]
fn unsupported_version_is_rejected() {
    let r = lint_source(
        &String::from("contract C {}"),
        &String::from("9.9.9"),
    );
    assert!(matches!(r, Err(LintError::UnknownVersion)));
}

#[test]
fn version_that_is_not_semver_is_rejected() {
    let r = lint_source(&String::from("contract C {}"), &String::from("latest"));
    assert!(matches!(r, Err(LintError::UnknownVersion)));
}
