//! The trusted boundary to the `slang_solidity` parsing and tree-query
//! engine.
//!
//! One scan — parse a source text under a language version, run a fixed set
//! of query patterns over the tree, and flatten every match into plain data
//! ([`RawMatch`]) — is a deterministic function of the text, the version, the
//! query texts and the capture name alone. That function is given the name
//! [`scan_of`]; [`scan_source`] is trusted to return it. Everything the
//! library concludes from a scan is verified code over the returned records.

use vstd::prelude::*;

use crate::records::{AncestorNode, CaptureData, NameToken, ParseIssue, RawMatch, ScanOutcome};

verus! {

/// A query match of the engine, opaque to verification; it only carries the
/// value from [`scan_source`]'s body into [`match_record`]'s.
#[verifier::external_body]
struct TreeMatch {
    inner: slang_solidity::query::QueryMatch,
}

/// A tree cursor of the engine, opaque to verification; it only carries the
/// value from [`match_record`]'s body into [`ancestor_record`]'s.
#[verifier::external_body]
struct TreeCursor {
    inner: slang_solidity::cursor::Cursor,
}

/// A parse result of the engine, opaque to verification; it only carries the
/// value from [`scan_source`]'s body into [`collect_records`]'s.
#[verifier::external_body]
struct ParsedTree {
    inner: slang_solidity::parse_output::ParseOutput,
}

/// What one scan of a source text returns: the engine parses `text` under
/// `version`, compiles and runs `queries`, and flattens each match around its
/// `capture`-named capture. The result is a function of these arguments
/// alone: the engine's parser and query evaluator are deterministic, and the
/// per-match captures are looked up by name, never enumerated.
pub uninterp spec fn scan_of(
    text: Seq<char>,
    version: Seq<char>,
    queries: Seq<Seq<char>>,
    capture: Seq<char>,
) -> ScanOutcome;

/// Relies on `slang_solidity`: `Language::new` (fails exactly on versions the
/// engine does not support), `Language::parse`, `ParseOutput::{errors,
/// is_valid, create_tree_cursor}`, `Query::parse` and `Cursor::query`. The
/// whole chain is deterministic in the arguments, so the result is named
/// [`scan_of`].
#[verifier::external_body]
pub(crate) fn scan_source(
    text: &str,
    version: &str,
    queries: &Vec<String>,
    capture: &str,
) -> (r: ScanOutcome)
    ensures
        r == scan_of(text@, version@, crate::records::seq_views(queries@), capture@),
{
    let Ok(parsed) = version.parse() else { return ScanOutcome::UnknownVersion };
    let Ok(language) = slang_solidity::language::Language::new(parsed) else {
        return ScanOutcome::UnknownVersion };
    let output = language.parse(slang_solidity::kinds::NonterminalKind::SourceUnit, text);
    let issues: Vec<ParseIssue> = output.errors().iter().map(|e| ParseIssue {
        offset: e.text_range().start.utf8, message: e.message() }).collect();
    if !output.is_valid() { return ScanOutcome::Invalid { issues }; }
    match collect_records(ParsedTree { inner: output }, queries, capture) {
        Some(records) => ScanOutcome::Matched { records },
        None => ScanOutcome::InvalidQuery,
    }
}

/// Part of [`scan_source`]'s conversion. Relies on `Query::parse`,
/// `ParseOutput::create_tree_cursor` and `Cursor::query` of
/// `slang_solidity`: compiles the query texts — `None` when one does not
/// compile — and flattens every match, in the engine's traversal order.
#[verifier::external_body]
fn collect_records(tree: ParsedTree, queries: &Vec<String>, capture: &str) -> (r: Option<
    Vec<RawMatch>,
>)
{
    let mut compiled = Vec::new();
    for q in queries {
        let Ok(c) = slang_solidity::query::Query::parse(q) else { return None };
        compiled.push(c);
    }
    let mut records = Vec::new();
    for m in tree.inner.create_tree_cursor().query(compiled) {
        records.push(match_record(&TreeMatch { inner: m }, capture));
    }
    Some(records)
}

/// Part of [`scan_source`]'s conversion. Relies on the `QueryMatch` fields of
/// `slang_solidity` (`query_number`, `captures`), on `Cursor::go_to_parent`
/// and on `Node::unparse`: flattens one match into the query index, the first
/// captured cursor's text, and its ancestor path, parent first.
#[verifier::external_body]
fn match_record(m: &TreeMatch, capture: &str) -> (r: RawMatch)
{
    let Some(cursor) = m.inner.captures.get(capture).and_then(|cs| cs.first()) else {
        return RawMatch { query_index: m.inner.query_number, capture: None };
    };
    let mut ancestors = Vec::new();
    let mut walk = cursor.clone();
    while walk.go_to_parent() {
        ancestors.push(ancestor_record(&TreeCursor { inner: walk.clone() }));
    }
    RawMatch {
        query_index: m.inner.query_number,
        capture: Some(CaptureData { text: cursor.node().unparse(), ancestors }),
    }
}

/// Part of [`scan_source`]'s conversion. Relies on `Node::kind` (whose
/// `Debug` form is the kind's name), `Cursor::go_to_next_terminal_with_kind`
/// and `Cursor::text_range` of `slang_solidity`: records one ancestor node's
/// kind name and the identifier terminal that follows the node's start, the
/// way the engine's cursor finds it, if there is one.
#[verifier::external_body]
fn ancestor_record(c: &TreeCursor) -> (r: AncestorNode)
{
    let kind = match c.inner.node().kind() {
        metaslang_cst::cst::NodeKind::Nonterminal(k) => format!("{k:?}"),
        metaslang_cst::cst::NodeKind::Terminal(k) => format!("{k:?}"),
    };
    let mut walk = c.inner.clone();
    let name_token = if walk.go_to_next_terminal_with_kind(
        slang_solidity::kinds::TerminalKind::Identifier) {
        let range = walk.text_range();
        Some(NameToken { offset: range.start.utf8, text: walk.node().unparse(),
            line: range.start.line })
    } else { None };
    AncestorNode { kind, name_token }
}

} // verus!
