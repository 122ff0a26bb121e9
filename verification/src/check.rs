//! The check command: which diagnostics a check reports and how it ends.

use vstd::prelude::*;

use crate::diagnostics::{decimal, views, Diagnostic, DiagnosticView, append_decimal};
use crate::parsed::ParsedSource;
use crate::syntax::{collect_syntax_errors, syntax_errors};
use crate::workspace::Workspace;
use crate::workspace_diagnostics::{
    collect_workspace_diagnostics, facts_fit, workspace_diagnostics, SourceFacts,
};

verus! {

/// How a command failed.
#[derive(Debug, Clone, Copy, PartialEq, Eq, Structural)]
pub enum CliError {
    /// A file could not be read.
    FileError,
    /// The workspace could not be built, or the check found errors.
    BuildError,
}

/// The syntax errors of the first `i` files, file by file.
pub open spec fn sources_syntax_errors(ws: Seq<ParsedSource>, i: int) -> Seq<DiagnosticView>
    decreases i,
{
    if i <= 0 {
        seq![]
    } else {
        sources_syntax_errors(ws, i - 1) + syntax_errors(ws[i - 1])
    }
}

/// What checking a workspace reports: the syntax errors of all its files,
/// or, when there are none, the workspace-level diagnostics.
pub open spec fn workspace_check(ws: Seq<ParsedSource>, facts: Seq<SourceFacts>) -> Seq<DiagnosticView> {
    let syntax = sources_syntax_errors(ws, ws.len() as int);
    if syntax.len() == 0 {
        workspace_diagnostics(ws, facts)
    } else {
        syntax
    }
}

/// Check a single file for syntax errors.
pub fn check_file(parsed: &ParsedSource) -> (diagnostics: Vec<Diagnostic>)
    ensures
        views(diagnostics@) == syntax_errors(*parsed),
{
    collect_syntax_errors(parsed)
}

/// Check all files in the workspace: syntax errors first, and only when
/// there are none, since syntax errors may leave incomplete trees, the
/// workspace-level diagnostics.
pub fn check_workspace(workspace: &Workspace, facts: &Vec<SourceFacts>) -> (diagnostics: Vec<
    Diagnostic,
>)
    requires
        facts_fit(workspace@, facts@),
    ensures
        views(diagnostics@) == workspace_check(workspace@, facts@),
{
    let ghost ws = workspace@;
    let mut all_diagnostics: Vec<Diagnostic> = Vec::new();
    let parsed_sources = workspace.parsed_sources();
    let mut i: usize = 0;
    proof {
        assert(views(all_diagnostics@) =~= sources_syntax_errors(ws, 0));
    }
    while i < parsed_sources.len()
        invariant
            i <= ws.len(),
            ws == workspace@,
            parsed_sources@.len() == ws.len(),
            forall|m: int| 0 <= m < ws.len() ==> *(#[trigger] parsed_sources@[m]) == ws[m],
            views(all_diagnostics@) == sources_syntax_errors(ws, i as int),
        decreases ws.len() - i,
    {
        let mut file_diagnostics = collect_syntax_errors(parsed_sources[i]);
        let ghost before = all_diagnostics@;
        let ghost added = file_diagnostics@;
        all_diagnostics.append(&mut file_diagnostics);
        proof {
            assert(views(all_diagnostics@) =~= views(before) + views(added));
        }
        i = i + 1;
    }
    if all_diagnostics.len() == 0 {
        proof {
            assert(views(all_diagnostics@).len() == 0);
        }
        return collect_workspace_diagnostics(workspace, facts);
    }
    all_diagnostics
}

/// The outcome of a check: success when it found no diagnostics.
pub fn report_diagnostics(diagnostics: &Vec<Diagnostic>) -> (r: Result<(), CliError>)
    ensures
        r is Ok <==> diagnostics@.len() == 0,
        r matches Err(e) ==> e == CliError::BuildError,
{
    if diagnostics.len() == 0 {
        Ok(())
    } else {
        Err(CliError::BuildError)
    }
}

/// The closing line of a check that found `count` diagnostics.
pub open spec fn summary_text(count: nat) -> Seq<char> {
    if count == 0 {
        "No errors found"@
    } else {
        "\nFound "@ + decimal(count) + " error(s)"@
    }
}

/// The closing line of a check that found `count` diagnostics.
pub fn summary_message(count: usize) -> (s: String)
    ensures
        s@ == summary_text(count as nat),
{
    if count == 0 {
        String::from_str("No errors found")
    } else {
        let mut s = String::from_str("\nFound ");
        append_decimal(&mut s, count as u64);
        s.append(" error(s)");
        s
    }
}

/// What a check found and how it ends.
pub struct CheckReport {
    pub diagnostics: Vec<Diagnostic>,
    pub result: Result<(), CliError>,
}

/// Check for errors: a single file if one is given, else the whole
/// workspace. The check succeeds when it finds no diagnostics.
pub fn check(workspace: &Workspace, facts: &Vec<SourceFacts>, file: Option<&ParsedSource>) -> (r:
    CheckReport)
    requires
        file is None ==> facts_fit(workspace@, facts@),
    ensures
        views(r.diagnostics@) == match file {
            Some(p) => syntax_errors(*p),
            None => workspace_check(workspace@, facts@),
        },
        r.result is Ok <==> r.diagnostics@.len() == 0,
        r.result matches Err(e) ==> e == CliError::BuildError,
{
    let diagnostics = match file {
        Some(parsed) => check_file(parsed),
        None => check_workspace(workspace, facts),
    };
    let result = report_diagnostics(&diagnostics);
    CheckReport { diagnostics, result }
}

/// Syntax errors hold back the workspace-level diagnostics: checking a
/// workspace reports its syntax errors when it has any, and its workspace
/// diagnostics otherwise.
pub proof fn law_syntax_errors_come_first(ws: Seq<ParsedSource>, facts: Seq<SourceFacts>)
    ensures
        sources_syntax_errors(ws, ws.len() as int).len() > 0 ==> workspace_check(ws, facts)
            == sources_syntax_errors(ws, ws.len() as int),
        sources_syntax_errors(ws, ws.len() as int).len() == 0 ==> workspace_check(ws, facts)
            == workspace_diagnostics(ws, facts),
{
}

/// The number of syntax errors in the first `i` files.
pub open spec fn syntax_error_count(ws: Seq<ParsedSource>, i: int) -> nat
    decreases i,
{
    if i <= 0 {
        0
    } else {
        syntax_error_count(ws, i - 1) + syntax_errors(ws[i - 1]).len()
    }
}

proof fn lemma_sources_syntax_errors(ws: Seq<ParsedSource>, i: int)
    requires
        0 <= i <= ws.len(),
    ensures
        sources_syntax_errors(ws, i).len() == syntax_error_count(ws, i),
        forall|j: int|
            0 <= j < i ==> sources_syntax_errors(ws, i).subrange(
                syntax_error_count(ws, j) as int,
                syntax_error_count(ws, j + 1) as int,
            ) == syntax_errors(#[trigger] ws[j]),
        forall|j: int| 0 <= j <= i ==> #[trigger] syntax_error_count(ws, j) <= syntax_error_count(ws, i),
    decreases i,
{
    if i > 0 {
        lemma_sources_syntax_errors(ws, i - 1);
        let prev = sources_syntax_errors(ws, i - 1);
        let all = sources_syntax_errors(ws, i);
        assert(all == prev + syntax_errors(ws[i - 1]));
        assert forall|j: int| 0 <= j < i implies all.subrange(
            syntax_error_count(ws, j) as int,
            syntax_error_count(ws, j + 1) as int,
        ) == syntax_errors(#[trigger] ws[j]) by {
            if j < i - 1 {
                assert(syntax_error_count(ws, j + 1) <= syntax_error_count(ws, i - 1));
                assert(all.subrange(syntax_error_count(ws, j) as int, syntax_error_count(ws, j + 1) as int)
                    =~= prev.subrange(syntax_error_count(ws, j) as int, syntax_error_count(ws, j + 1) as int));
            } else {
                assert(all.subrange(syntax_error_count(ws, j) as int, syntax_error_count(ws, j + 1) as int)
                    =~= syntax_errors(ws[i - 1]));
            }
        }
        assert forall|j: int| 0 <= j <= i implies #[trigger] syntax_error_count(ws, j) <= syntax_error_count(ws, i) by {
            if j < i {
                assert(syntax_error_count(ws, j) <= syntax_error_count(ws, i - 1));
            }
        }
    }
}

/// Checking a workspace with syntax errors reports the syntax errors of
/// every file, in file order: as many diagnostics as all the files have
/// syntax errors together, the `j`-th file's coming after those of the files
/// before it. A workspace without syntax errors gets its workspace-level
/// diagnostics.
pub proof fn law_check_reports_every_file_syntax_errors(ws: Seq<ParsedSource>, facts: Seq<SourceFacts>)
    ensures
        syntax_error_count(ws, ws.len() as int) > 0 ==> {
            &&& workspace_check(ws, facts).len() == syntax_error_count(ws, ws.len() as int)
            &&& forall|j: int|
                0 <= j < ws.len() ==> workspace_check(ws, facts).subrange(
                    syntax_error_count(ws, j) as int,
                    syntax_error_count(ws, j + 1) as int,
                ) == syntax_errors(#[trigger] ws[j])
        },
        syntax_error_count(ws, ws.len() as int) == 0 ==> workspace_check(ws, facts)
            == workspace_diagnostics(ws, facts),
{
    lemma_sources_syntax_errors(ws, ws.len() as int);
}

} // verus!
