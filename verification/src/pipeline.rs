//! The per-file lint and the sequential reference driver over a file list.
//!
//! [`lint_source`] scans one source text with the library's two fixed query
//! patterns and runs the tracker over the matches; its result is pinned, via
//! [`scan_of`], as a function of the text and the version alone. Files are
//! independent: [`lint_files`] reports on each file exactly what
//! [`lint_source`] reports for it, whatever the rest of the list holds.

use vstd::multiset::Multiset;
use vstd::prelude::*;

use crate::engine::{scan_of, scan_source};
use crate::records::{DiagView, Diagnostic, ParseIssue, ScanOutcome, diag_views, seq_views};
use crate::tracker::{analyze_matches, spec_diags};

verus! {

/// The query pattern for qualified accesses `s.<member>`: a member-access
/// expression whose operand is the storage-pointer identifier `s`; the
/// capture binds the member identifier, so a chained access is truncated to
/// its first member.
pub open spec fn qualified_query() -> Seq<char> {
    "[MemberAccessExpression [Expression [\"s\"]] [Period] @var_name [Identifier]]"@
}

/// The query pattern for bare identifiers, the candidate local aliases.
pub open spec fn bare_query() -> Seq<char> {
    "@var_name [Identifier]"@
}

/// The capture name both queries bind the identifier under.
pub open spec fn capture_name() -> Seq<char> {
    "var_name"@
}

/// The two query patterns of the lint, qualified accesses first.
pub open spec fn lint_queries() -> Seq<Seq<char>> {
    seq![qualified_query(), bare_query()]
}

/// The exec form of [`lint_queries`].
fn build_queries() -> (r: Vec<String>)
    ensures
        seq_views(r@) == lint_queries(),
{
    let mut r: Vec<String> = Vec::new();
    r.push(
        String::from_str(
            "[MemberAccessExpression [Expression [\"s\"]] [Period] @var_name [Identifier]]",
        ),
    );
    r.push(String::from_str("@var_name [Identifier]"));
    proof {
        assert(seq_views(r@) =~= lint_queries());
    }
    r
}

/// Why one file produced no findings.
#[derive(Debug)]
pub enum LintError {
    /// The engine does not support the requested language version.
    UnknownVersion,
    /// A query pattern did not compile.
    InvalidQuery,
    /// The text did not parse; the parse errors are attached.
    ParseFailed { issues: Vec<ParseIssue> },
}

/// What [`lint_source`] must return for a given scan outcome: each scan
/// failure maps to its lint error — a parse failure keeps exactly the parse
/// issues, and yields no diagnostics — and a completed scan yields exactly
/// the tracker's diagnostics over the scan's match records.
pub open spec fn lint_result_for(r: Result<Vec<Diagnostic>, LintError>, o: ScanOutcome) -> bool {
    match o {
        ScanOutcome::UnknownVersion => r == Result::<Vec<Diagnostic>, LintError>::Err(
            LintError::UnknownVersion,
        ),
        ScanOutcome::InvalidQuery => r == Result::<Vec<Diagnostic>, LintError>::Err(
            LintError::InvalidQuery,
        ),
        ScanOutcome::Invalid { issues } => r == Result::<Vec<Diagnostic>, LintError>::Err(
            LintError::ParseFailed { issues },
        ),
        ScanOutcome::Matched { records } => match r {
            Result::Ok(ds) => diag_views(ds@) == spec_diags(records@),
            Result::Err(_) => false,
        },
    }
}

/// Lints one source text under one language version: scans it with the
/// library's two queries and runs the duplicate-access tracker over the
/// matches, as [`lint_result_for`] states.
pub fn lint_source(text: &String, version: &String) -> (r: Result<Vec<Diagnostic>, LintError>)
    ensures
        lint_result_for(r, scan_of(text@, version@, lint_queries(), capture_name())),
{
    let queries = build_queries();
    let capture = String::from_str("var_name");
    let outcome = scan_source(text.as_str(), version.as_str(), &queries, capture.as_str());
    match outcome {
        ScanOutcome::UnknownVersion => Result::Err(LintError::UnknownVersion),
        ScanOutcome::InvalidQuery => Result::Err(LintError::InvalidQuery),
        ScanOutcome::Invalid { issues } => Result::Err(LintError::ParseFailed { issues }),
        ScanOutcome::Matched { records } => Result::Ok(analyze_matches(&records)),
    }
}

/// One source file handed to the lint: its path and its text.
#[derive(Debug)]
pub struct SourceFile {
    pub path: String,
    pub text: String,
}

/// One file's outcome: the file's path and what [`lint_source`] returned.
#[derive(Debug)]
pub struct FileReport {
    pub path: String,
    pub result: Result<Vec<Diagnostic>, LintError>,
}

/// The diagnostics one file's text contributes to a run: none unless the
/// scan completed.
pub open spec fn file_diag_views(text: Seq<char>, version: Seq<char>) -> Seq<DiagView> {
    match scan_of(text, version, lint_queries(), capture_name()) {
        ScanOutcome::Matched { records } => spec_diags(records@),
        _ => Seq::empty(),
    }
}

/// One file's diagnostics, each tagged with the file's path.
pub open spec fn tagged_file_diags(f: SourceFile, version: Seq<char>) -> Seq<(Seq<char>, DiagView)> {
    file_diag_views(f.text@, version).map_values(|d: DiagView| (f.path@, d))
}

/// Every diagnostic of a run over a file list, as a multiset of
/// path-tagged diagnostics: what a run reports, with any ordering forgotten.
pub open spec fn run_diag_multiset(files: Seq<SourceFile>, version: Seq<char>) -> Multiset<
    (Seq<char>, DiagView),
>
    decreases files.len(),
{
    if files.len() == 0 {
        Multiset::empty()
    } else {
        run_diag_multiset(files.drop_last(), version).add(
            tagged_file_diags(files.last(), version).to_multiset(),
        )
    }
}

/// The path-tagged diagnostics one report contributes: none when its file
/// failed.
pub open spec fn report_diags(r: FileReport) -> Seq<(Seq<char>, DiagView)> {
    match r.result {
        Result::Ok(ds) => diag_views(ds@).map_values(|d: DiagView| (r.path@, d)),
        Result::Err(_) => Seq::empty(),
    }
}

/// Every diagnostic a list of reports holds, as a multiset of path-tagged
/// diagnostics.
pub open spec fn reports_diag_multiset(rs: Seq<FileReport>) -> Multiset<(Seq<char>, DiagView)>
    decreases rs.len(),
{
    if rs.len() == 0 {
        Multiset::empty()
    } else {
        reports_diag_multiset(rs.drop_last()).add(report_diags(rs.last()).to_multiset())
    }
}

/// Lints every file in the list, in order: each report carries its file's
/// path and exactly the result [`lint_source`] gives for that file's text,
/// so files never affect one another; and everything the reports hold is the
/// run's diagnostic multiset, which depends only on which files were given.
pub fn lint_files(files: &Vec<SourceFile>, version: &String) -> (reports: Vec<FileReport>)
    ensures
        reports@.len() == files@.len(),
        forall|i: int|
            0 <= i < files@.len() ==> (#[trigger] reports@[i]).path@ == files@[i].path@
                && lint_result_for(
                reports@[i].result,
                scan_of(files@[i].text@, version@, lint_queries(), capture_name()),
            ),
        reports_diag_multiset(reports@) == run_diag_multiset(files@, version@),
{
    let mut reports: Vec<FileReport> = Vec::new();
    let n = files.len();
    let mut i: usize = 0;
    while i < n
        invariant
            n == files@.len(),
            i <= n,
            reports@.len() == i,
            forall|j: int|
                0 <= j < i ==> (#[trigger] reports@[j]).path@ == files@[j].path@
                    && lint_result_for(
                    reports@[j].result,
                    scan_of(files@[j].text@, version@, lint_queries(), capture_name()),
                ),
            reports_diag_multiset(reports@) == run_diag_multiset(
                files@.take(i as int),
                version@,
            ),
        decreases n - i,
    {
        let ghost old_reports = reports@;
        let ghost f_spec = files@[i as int];
        let f = &files[i];
        let result = lint_source(&f.text, version);
        reports.push(FileReport { path: f.path.clone(), result });
        proof {
            let r = reports@.last();
            assert(reports@.drop_last() =~= old_reports);
            assert(report_diags(r) =~= tagged_file_diags(f_spec, version@));
            assert(files@.take(i as int + 1).drop_last() =~= files@.take(i as int));
            assert(files@.take(i as int + 1).last() == f_spec);
        }
        i = i + 1;
    }
    proof {
        assert(files@.take(n as int) =~= files@);
    }
    reports
}

} // verus!
