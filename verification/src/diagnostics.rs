//! Diagnostic values: a message with a severity and a source span.

use vstd::prelude::*;

use crate::syntax_tree::SyntaxNode;

verus! {

/// A source location span within a file.
#[derive(Debug, Clone, PartialEq)]
pub struct SourceSpan {
    /// Workspace-relative file path.
    pub file: String,
    /// Start line (0-indexed).
    pub start_line: u32,
    /// Start column (0-indexed).
    pub start_col: u32,
    /// End line (0-indexed).
    pub end_line: u32,
    /// End column (0-indexed).
    pub end_col: u32,
}

/// The mathematical value of a [`SourceSpan`].
pub struct SpanView {
    pub file: Seq<char>,
    pub start_line: u32,
    pub start_col: u32,
    pub end_line: u32,
    pub end_col: u32,
}

impl View for SourceSpan {
    type V = SpanView;

    open spec fn view(&self) -> SpanView {
        SpanView {
            file: self.file@,
            start_line: self.start_line,
            start_col: self.start_col,
            end_line: self.end_line,
            end_col: self.end_col,
        }
    }
}

/// The span of a whole node: its start and end positions, each coordinate
/// truncated to 32 bits.
pub open spec fn node_span(n: SyntaxNode, file: Seq<char>) -> SpanView {
    SpanView {
        file: file,
        start_line: n.start_position.row as u32,
        start_col: n.start_position.column as u32,
        end_line: n.end_position.row as u32,
        end_col: n.end_position.column as u32,
    }
}

impl SourceSpan {
    /// Creates a SourceSpan from a syntax node's position.
    pub fn from_node(node: &SyntaxNode, file: &String) -> (s: SourceSpan)
        ensures
            s@ == node_span(*node, file@),
    {
        SourceSpan {
            file: file.clone(),
            start_line: node.start_position.row as u32,
            start_col: node.start_position.column as u32,
            end_line: node.end_position.row as u32,
            end_col: node.end_position.column as u32,
        }
    }

    /// A copy of this span.
    pub fn duplicate(&self) -> (s: SourceSpan)
        ensures
            s@ == self@,
    {
        SourceSpan {
            file: self.file.clone(),
            start_line: self.start_line,
            start_col: self.start_col,
            end_line: self.end_line,
            end_col: self.end_col,
        }
    }
}

/// Severity level of a diagnostic.
#[derive(Debug, Clone, Copy, PartialEq, Eq, Structural)]
pub enum DiagnosticSeverity {
    Error,
    Warning,
}

/// A diagnostic message with source location.
#[derive(Debug, Clone, PartialEq)]
pub struct Diagnostic {
    pub message: String,
    pub severity: DiagnosticSeverity,
    pub span: SourceSpan,
}

/// The mathematical value of a [`Diagnostic`].
pub struct DiagnosticView {
    pub message: Seq<char>,
    pub severity: DiagnosticSeverity,
    pub span: SpanView,
}

impl View for Diagnostic {
    type V = DiagnosticView;

    open spec fn view(&self) -> DiagnosticView {
        DiagnosticView { message: self.message@, severity: self.severity, span: self.span@ }
    }
}

/// An error-severity diagnostic value.
pub open spec fn error_at(message: Seq<char>, span: SpanView) -> DiagnosticView {
    DiagnosticView { message, severity: DiagnosticSeverity::Error, span }
}

/// The values of a sequence of diagnostics.
pub open spec fn views(ds: Seq<Diagnostic>) -> Seq<DiagnosticView> {
    ds.map_values(|d: Diagnostic| d@)
}

/// The character of a decimal digit.
pub open spec fn digit_char(d: nat) -> char {
    if d == 0 { '0' }
    else if d == 1 { '1' }
    else if d == 2 { '2' }
    else if d == 3 { '3' }
    else if d == 4 { '4' }
    else if d == 5 { '5' }
    else if d == 6 { '6' }
    else if d == 7 { '7' }
    else if d == 8 { '8' }
    else { '9' }
}

/// The decimal notation of a natural number, without leading zeros.
pub open spec fn decimal(n: nat) -> Seq<char>
    decreases n,
{
    if n < 10 {
        seq![digit_char(n)]
    } else {
        decimal(n / 10) + seq![digit_char(n % 10)]
    }
}

/// The word naming a severity.
pub open spec fn severity_word(s: DiagnosticSeverity) -> Seq<char> {
    match s {
        DiagnosticSeverity::Error => "error"@,
        DiagnosticSeverity::Warning => "warning"@,
    }
}

/// The one-line rendering of a diagnostic:
/// `file:line:column: severity: message`, with line and column counted from 1.
pub open spec fn rendered(d: DiagnosticView) -> Seq<char> {
    d.span.file + ":"@ + decimal((d.span.start_line + 1) as nat) + ":"@ + decimal((d.span.start_col + 1) as nat)
        + ": "@ + severity_word(d.severity) + ": "@ + d.message
}

fn digit_str(d: u64) -> (s: &'static str)
    requires
        d < 10,
    ensures
        s@ == seq![digit_char(d as nat)],
{
    proof {
        reveal_strlit("0");
        reveal_strlit("1");
        reveal_strlit("2");
        reveal_strlit("3");
        reveal_strlit("4");
        reveal_strlit("5");
        reveal_strlit("6");
        reveal_strlit("7");
        reveal_strlit("8");
        reveal_strlit("9");
    }
    if d == 0 { "0" }
    else if d == 1 { "1" }
    else if d == 2 { "2" }
    else if d == 3 { "3" }
    else if d == 4 { "4" }
    else if d == 5 { "5" }
    else if d == 6 { "6" }
    else if d == 7 { "7" }
    else if d == 8 { "8" }
    else { "9" }
}

/// Appends the decimal notation of `n` to `out`.
pub fn append_decimal(out: &mut String, n: u64)
    ensures
        final(out)@ == old(out)@ + decimal(n as nat),
    decreases n,
{
    if n >= 10 {
        append_decimal(out, n / 10);
        out.append(digit_str(n % 10));
        assert(final(out)@ =~= old(out)@ + decimal(n as nat));
    } else {
        out.append(digit_str(n));
        assert(final(out)@ =~= old(out)@ + decimal(n as nat));
    }
}

impl Diagnostic {
    /// Renders the diagnostic as `file:line:column: severity: message`,
    /// with line and column counted from 1.
    pub fn render(&self) -> (s: String)
        requires
            self.span.start_line < u32::MAX,
            self.span.start_col < u32::MAX,
        ensures
            s@ == rendered(self@),
    {
        let mut out = self.span.file.clone();
        out.append(":");
        append_decimal(&mut out, (self.span.start_line + 1) as u64);
        out.append(":");
        append_decimal(&mut out, (self.span.start_col + 1) as u64);
        out.append(": ");
        match self.severity {
            DiagnosticSeverity::Error => out.append("error"),
            DiagnosticSeverity::Warning => out.append("warning"),
        }
        out.append(": ");
        out.append(self.message.as_str());
        proof {
            assert(out@ =~= rendered(self@));
        }
        out
    }
}

} // verus!
