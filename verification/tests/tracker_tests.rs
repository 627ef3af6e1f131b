//! Tests of the duplicate-access tracker over hand-built match records.

use storage_lint::records::{AncestorNode, CaptureData, NameToken, RawMatch};
use storage_lint::tracker::analyze_matches;

fn plain(kind: &str) -> AncestorNode {
    AncestorNode { kind: String::from(kind), name_token: None }
}

fn fn_ancestor(offset: usize, name: &str, line: usize) -> AncestorNode {
    AncestorNode {
        kind: String::from("FunctionDefinition"),
        name_token: Some(NameToken { offset, text: String::from(name), line }),
    }
}

fn qualified(member: &str, fn_offset: usize, fn_name: &str) -> RawMatch {
    RawMatch {
        query_index: 0,
        capture: Some(CaptureData {
            text: String::from(member),
            ancestors: vec![
                plain("MemberAccessExpression"),
                plain("Expression"),
                plain("Block"),
                fn_ancestor(fn_offset, fn_name, 3),
            ],
        }),
    }
}

fn bare(name: &str, fn_offset: usize, fn_name: &str) -> RawMatch {
    RawMatch {
        query_index: 1,
        capture: Some(CaptureData {
            text: String::from(name),
            ancestors: vec![
                plain("Expression"),
                plain("ExpressionStatement"),
                fn_ancestor(fn_offset, fn_name, 3),
            ],
        }),
    }
}

#[test]
fn distinct_members_stay_silent() {
    let matches = vec![qualified("a", 10, "f"), qualified("b", 10, "f"), qualified("c", 10, "f")];
    assert!(analyze_matches(&matches).is_empty());
}

#[test]
fn repeated_member_reported_once() {
    let matches = vec![qualified("a", 10, "f"), qualified("a", 10, "f"), qualified("a", 10, "f")];
    let diags = analyze_matches(&matches);
    assert_eq!(diags.len(), 1);
    assert_eq!(diags[0].function, "f");
    assert_eq!(diags[0].function_offset, 10);
    assert_eq!(diags[0].member, "s.a");
    assert_eq!(diags[0].line, 3);
}

#[test]
fn scope_closes_after_first_finding() {
    let matches = vec![
        qualified("a", 10, "f"),
        qualified("a", 10, "f"),
        qualified("b", 10, "f"),
        qualified("b", 10, "f"),
    ];
    let diags = analyze_matches(&matches);
    assert_eq!(diags.len(), 1);
    assert_eq!(diags[0].member, "s.a");
}

#[test]
fn same_member_in_two_functions_is_fine() {
    let matches = vec![qualified("a", 10, "f"), qualified("a", 50, "g")];
    assert!(analyze_matches(&matches).is_empty());
}

#[test]
fn two_functions_report_independently() {
    let matches = vec![
        qualified("a", 10, "f"),
        qualified("a", 50, "g"),
        qualified("a", 50, "g"),
        qualified("a", 10, "f"),
    ];
    let diags = analyze_matches(&matches);
    assert_eq!(diags.len(), 2);
    assert_eq!(diags[0].function, "g");
    assert_eq!(diags[1].function, "f");
}

#[test]
fn marked_alias_repeats_report() {
    let matches = vec![bare("_x", 10, "f"), bare("_x", 10, "f")];
    let diags = analyze_matches(&matches);
    assert_eq!(diags.len(), 1);
    assert_eq!(diags[0].member, "_x");
    assert_eq!(diags[0].function, "f");
}

#[test]
fn unmarked_identifier_is_ignored() {
    let matches = vec![bare("x", 10, "f"), bare("x", 10, "f")];
    assert!(analyze_matches(&matches).is_empty());
}

#[test]
fn callee_position_is_ignored() {
    let callee = RawMatch {
        query_index: 1,
        capture: Some(CaptureData {
            text: String::from("_foo"),
            ancestors: vec![
                plain("Expression"),
                plain("FunctionCallExpression"),
                fn_ancestor(10, "f", 3),
            ],
        }),
    };
    let matches = vec![callee.clone(), callee];
    assert!(analyze_matches(&matches).is_empty());
}

#[test]
fn member_suffix_is_not_double_counted() {
    let suffix = RawMatch {
        query_index: 1,
        capture: Some(CaptureData {
            text: String::from("_a"),
            ancestors: vec![
                plain("MemberAccessExpression"),
                plain("Expression"),
                fn_ancestor(10, "f", 3),
            ],
        }),
    };
    let matches = vec![suffix];
    assert!(analyze_matches(&matches).is_empty());
}

#[test]
fn access_outside_any_function_is_discarded() {
    let stray = RawMatch {
        query_index: 0,
        capture: Some(CaptureData {
            text: String::from("a"),
            ancestors: vec![plain("MemberAccessExpression"), plain("SourceUnit")],
        }),
    };
    let matches = vec![stray.clone(), stray];
    assert!(analyze_matches(&matches).is_empty());
}

#[test]
fn function_without_name_token_is_discarded() {
    let inside_unnamed = RawMatch {
        query_index: 0,
        capture: Some(CaptureData {
            text: String::from("a"),
            ancestors: vec![plain("MemberAccessExpression"), plain("FunctionDefinition")],
        }),
    };
    let matches = vec![inside_unnamed.clone(), inside_unnamed];
    assert!(analyze_matches(&matches).is_empty());
}

#[test]
fn nearest_enclosing_function_wins() {
    let nested = || RawMatch {
        query_index: 0,
        capture: Some(CaptureData {
            text: String::from("a"),
            ancestors: vec![
                plain("MemberAccessExpression"),
                fn_ancestor(10, "inner", 4),
                fn_ancestor(50, "outer", 1),
            ],
        }),
    };
    let diags = analyze_matches(&vec![nested(), nested()]);
    assert_eq!(diags.len(), 1);
    assert_eq!(diags[0].function, "inner");
    assert_eq!(diags[0].function_offset, 10);
}

#[test]
fn qualified_and_bare_names_do_not_collide() {
    let matches = vec![qualified("a", 10, "f"), bare("_a", 10, "f")];
    assert!(analyze_matches(&matches).is_empty());
}
