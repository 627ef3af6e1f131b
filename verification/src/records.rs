//! Plain data carried between the parsing engine, the duplicate-access
//! tracker, and the callers: raw match records extracted from a syntax tree,
//! parse issues, and the diagnostics the lint reports.

use vstd::prelude::*;

verus! {

/// One parse error: the byte offset where it occurred and a rendered message.
#[derive(Debug)]
pub struct ParseIssue {
    pub offset: usize,
    pub message: String,
}

/// An identifier token inside a syntax tree: its byte offset (unique within
/// one tree), its text, and the line it starts on.
#[derive(Debug, Clone)]
pub struct NameToken {
    pub offset: usize,
    pub text: String,
    pub line: usize,
}

/// One ancestor node of a captured identifier, from the parent upward: the
/// node's kind name, and its leading identifier token, if any.
#[derive(Debug, Clone)]
pub struct AncestorNode {
    pub kind: String,
    pub name_token: Option<NameToken>,
}

/// What one captured identifier looks like: its text and its ancestor path.
#[derive(Debug, Clone)]
pub struct CaptureData {
    pub text: String,
    pub ancestors: Vec<AncestorNode>,
}

/// One match of a query against a syntax tree: which query matched, and the
/// captured identifier, if the capture name was bound.
#[derive(Debug, Clone)]
pub struct RawMatch {
    pub query_index: usize,
    pub capture: Option<CaptureData>,
}

/// Everything one scan of a source text returns.
#[derive(Debug)]
pub enum ScanOutcome {
    /// The requested language version is not supported by the engine.
    UnknownVersion,
    /// A query pattern did not compile.
    InvalidQuery,
    /// The text did not parse; the parse errors are attached.
    Invalid { issues: Vec<ParseIssue> },
    /// The text parsed; all query matches, in traversal order.
    Matched { records: Vec<RawMatch> },
}

/// A duplicate-access finding: the enclosing function's name, the byte offset
/// of its name token (the scope key), the repeated member name, and the line
/// of the function's name token.
#[derive(Debug)]
pub struct Diagnostic {
    pub function: String,
    pub function_offset: usize,
    pub member: String,
    pub line: usize,
}

/// The mathematical content of a [`Diagnostic`].
pub struct DiagView {
    pub function: Seq<char>,
    pub function_offset: int,
    pub member: Seq<char>,
    pub line: int,
}

impl View for Diagnostic {
    type V = DiagView;

    open spec fn view(&self) -> DiagView {
        DiagView {
            function: self.function@,
            function_offset: self.function_offset as int,
            member: self.member@,
            line: self.line as int,
        }
    }
}

/// The views of a sequence of strings.
pub open spec fn seq_views(qs: Seq<String>) -> Seq<Seq<char>> {
    qs.map_values(|q: String| q@)
}

/// The view of an optional string.
pub open spec fn opt_view(o: Option<String>) -> Option<Seq<char>> {
    match o {
        Option::Some(s) => Option::Some(s@),
        Option::None => Option::None,
    }
}

/// Appending a string appends its view.
pub proof fn lemma_seq_views_push(ss: Seq<String>, s: String)
    ensures
        seq_views(ss.push(s)) == seq_views(ss).push(s@),
{
    assert(seq_views(ss.push(s)) =~= seq_views(ss).push(s@));
}

/// Appending a diagnostic appends its view.
pub proof fn lemma_diag_views_push(ds: Seq<Diagnostic>, d: Diagnostic)
    ensures
        diag_views(ds.push(d)) == diag_views(ds).push(d@),
{
    assert(diag_views(ds.push(d)) =~= diag_views(ds).push(d@));
}

/// The views of a sequence of diagnostics.
pub open spec fn diag_views(ds: Seq<Diagnostic>) -> Seq<DiagView> {
    ds.map_values(|d: Diagnostic| d@)
}

} // verus!
