//! Syntax error detection by walking ERROR and MISSING nodes.
//!
//! Uses tree structure context to produce targeted error messages and
//! clamps large error spans to avoid underlining the entire file.

use vstd::prelude::*;

use crate::diagnostics::{
    error_at, node_span, views, Diagnostic, DiagnosticSeverity, DiagnosticView, SourceSpan,
    SpanView,
};
use crate::parsed::ParsedSource;
use crate::syntax_tree::{
    first_child_of_kind, has_child_of_kind, node_wf, some_child_has_error, SyntaxNode,
};

verus! {

/// The index of the first newline byte at or after `i`, or the length of
/// `bytes` when there is none.
pub open spec fn first_newline_from(bytes: Seq<u8>, i: int) -> int
    decreases bytes.len() - i,
{
    if i < 0 || i >= bytes.len() {
        bytes.len() as int
    } else if bytes[i] == 10u8 {
        i
    } else {
        first_newline_from(bytes, i + 1)
    }
}

/// The span of an ERROR node: a node that ends on a later line than it
/// starts is cut at the end of its first line.
pub open spec fn clamped_span(n: SyntaxNode, bytes: Seq<u8>, file: Seq<char>) -> SpanView {
    if n.end_position.row > n.start_position.row {
        let line_end = first_newline_from(bytes, n.start_byte as int);
        let end_col = line_end - (n.start_byte - n.start_position.column);
        SpanView {
            file: file,
            start_line: n.start_position.row as u32,
            start_col: n.start_position.column as u32,
            end_line: n.start_position.row as u32,
            end_col: end_col as u32,
        }
    } else {
        node_span(n, file)
    }
}

/// An ERROR node that sits in a `field` holding `=` and itself holds an
/// identifier and `=`: the parser swallowed the next `name =` because the
/// current field lacks its value.
pub open spec fn is_swallowed_field(n: SyntaxNode, parent: Option<SyntaxNode>) -> bool {
    &&& parent matches Some(p)
    &&& p.kind@ == "field"@
    &&& has_child_of_kind(p, "="@)
    &&& has_child_of_kind(n, "identifier"@)
    &&& has_child_of_kind(n, "="@)
}

/// The diagnostic for an ERROR node.
pub open spec fn error_diagnostic(
    n: SyntaxNode,
    parent: Option<SyntaxNode>,
    bytes: Seq<u8>,
    file: Seq<char>,
) -> DiagnosticView {
    let span = clamped_span(n, bytes, file);
    if is_swallowed_field(n, parent) {
        let diag_span = match parent {
            Some(p) => match first_child_of_kind(p, "="@) {
                Some(eq) => node_span(eq, file),
                None => span,
            },
            None => span,
        };
        error_at("Expected a value"@, diag_span)
    } else {
        error_at("Syntax error"@, span)
    }
}

/// The message for a MISSING identifier, by the kind of its parent.
pub open spec fn missing_identifier_text(parent: Option<SyntaxNode>) -> Seq<char> {
    match parent {
        Some(p) => if p.kind@ == "entity_id"@ {
            "Missing entity ID"@
        } else if p.kind@ == "entity_type"@ {
            "Missing entity type"@
        } else if p.kind@ == "schema_name"@ {
            "Missing schema name"@
        } else if p.kind@ == "field_name"@ {
            "Missing field name"@
        } else {
            "Missing identifier"@
        },
        None => "Missing identifier"@,
    }
}

/// The message for a MISSING node, by its kind.
pub open spec fn missing_text(n: SyntaxNode, parent: Option<SyntaxNode>) -> Seq<char> {
    let k = n.kind@;
    if k == "true"@ || k == "false"@ || k == "boolean"@ {
        "Expected a value"@
    } else if k == "}"@ {
        "Missing closing `}`"@
    } else if k == "]"@ {
        "Missing closing `]`"@
    } else if k == "\""@ {
        "Unclosed string literal"@
    } else if k == "identifier"@ {
        missing_identifier_text(parent)
    } else {
        "Expected "@ + k
    }
}

/// The diagnostic for a MISSING node.
pub open spec fn missing_diagnostic(n: SyntaxNode, parent: Option<SyntaxNode>, file: Seq<char>) -> DiagnosticView {
    error_at(missing_text(n, parent), node_span(n, file))
}

/// The syntax diagnostics of the subtree rooted at `n`, whose parent is
/// `parent`, in document order: one for each ERROR or MISSING node that has
/// no ERROR or MISSING ancestor inside the subtree.
pub open spec fn node_errors(
    n: SyntaxNode,
    parent: Option<SyntaxNode>,
    bytes: Seq<u8>,
    file: Seq<char>,
) -> Seq<DiagnosticView>
    decreases n, 1int, 0int,
{
    if n.is_error {
        seq![error_diagnostic(n, parent, bytes, file)]
    } else if n.is_missing {
        seq![missing_diagnostic(n, parent, file)]
    } else {
        children_errors(n, n.children@.len() as int, bytes, file)
    }
}

/// The syntax diagnostics of the first `k` children of `n`, in order.
pub open spec fn children_errors(n: SyntaxNode, k: int, bytes: Seq<u8>, file: Seq<char>) -> Seq<
    DiagnosticView,
>
    decreases n, 0int, k,
{
    if k <= 0 || k > n.children@.len() {
        seq![]
    } else {
        children_errors(n, k - 1, bytes, file) + node_errors(
            n.children@[k - 1],
            Some(n),
            bytes,
            file,
        )
    }
}

/// The syntax diagnostics of a parsed source file.
pub open spec fn syntax_errors(parsed: ParsedSource) -> Seq<DiagnosticView> {
    node_errors(parsed.tree(), None, parsed.bytes(), parsed.file())
}

pub open spec fn deref_opt(o: Option<&SyntaxNode>) -> Option<SyntaxNode> {
    match o {
        Some(p) => Some(*p),
        None => None,
    }
}

/// Collects syntax errors from a parsed source file.
pub fn collect_syntax_errors(parsed: &ParsedSource) -> (diagnostics: Vec<Diagnostic>)
    ensures
        views(diagnostics@) == syntax_errors(*parsed),
{
    let root = parsed.root_node();
    let bytes = parsed.source().as_str().as_bytes();
    let mut diagnostics = Vec::new();
    proof {
        assert(views(diagnostics@) =~= Seq::<DiagnosticView>::empty());
    }
    collect_errors_recursive(root, None, bytes, parsed.path(), &mut diagnostics);
    proof {
        assert(views(diagnostics@) =~= syntax_errors(*parsed));
    }
    diagnostics
}

fn collect_errors_recursive(
    node: &SyntaxNode,
    parent: Option<&SyntaxNode>,
    bytes: &[u8],
    file: &String,
    diagnostics: &mut Vec<Diagnostic>,
)
    requires
        node_wf(*node, bytes@),
    ensures
        views(final(diagnostics)@) == views(old(diagnostics)@) + node_errors(
            *node,
            deref_opt(parent),
            bytes@,
            file@,
        ),
    decreases node,
{
    if node.is_error {
        let d = make_error_diagnostic(node, parent, bytes, file);
        diagnostics.push(d);
        proof {
            assert(views(diagnostics@) =~= views(old(diagnostics)@) + node_errors(
                *node,
                deref_opt(parent),
                bytes@,
                file@,
            ));
        }
        return ;
    }
    if node.is_missing {
        let d = make_missing_diagnostic(node, parent, file);
        diagnostics.push(d);
        proof {
            assert(views(diagnostics@) =~= views(old(diagnostics)@) + node_errors(
                *node,
                deref_opt(parent),
                bytes@,
                file@,
            ));
        }
        return ;
    }
    let mut i: usize = 0;
    proof {
        assert(views(diagnostics@) =~= views(old(diagnostics)@) + children_errors(
            *node,
            0,
            bytes@,
            file@,
        ));
    }
    while i < node.children.len()
        invariant
            node_wf(*node, bytes@),
            !node.is_error,
            !node.is_missing,
            i <= node.children@.len(),
            views(diagnostics@) == views(old(diagnostics)@) + children_errors(
                *node,
                i as int,
                bytes@,
                file@,
            ),
        decreases node.children@.len() - i,
    {
        let child = &node.children[i];
        assert(node_wf(*child, bytes@));
        if child.has_error || child.is_error || child.is_missing {
            collect_errors_recursive(child, Some(node), bytes, file, diagnostics);
        } else {
            proof {
                lemma_clean_node_errors(*child, Some(*node), bytes@, file@);
            }
        }
        proof {
            assert(views(diagnostics@) =~= views(old(diagnostics)@) + children_errors(
                *node,
                i + 1,
                bytes@,
                file@,
            ));
        }
        i = i + 1;
    }
}

/// A node with no error below it yields no diagnostics.
pub proof fn lemma_clean_node_errors(
    n: SyntaxNode,
    parent: Option<SyntaxNode>,
    bytes: Seq<u8>,
    file: Seq<char>,
)
    requires
        node_wf(n, bytes),
        !n.has_error,
    ensures
        node_errors(n, parent, bytes, file) == Seq::<DiagnosticView>::empty(),
    decreases n, 1int, 0int,
{
    lemma_clean_children_errors(n, n.children@.len() as int, bytes, file);
}

proof fn lemma_clean_children_errors(n: SyntaxNode, k: int, bytes: Seq<u8>, file: Seq<char>)
    requires
        node_wf(n, bytes),
        !n.has_error,
    ensures
        children_errors(n, k, bytes, file) == Seq::<DiagnosticView>::empty(),
    decreases n, 0int, k,
{
    if k <= 0 || k > n.children@.len() {
    } else {
        lemma_clean_children_errors(n, k - 1, bytes, file);
        let c = n.children@[k - 1];
        assert(!c.has_error);
        assert(node_wf(c, bytes));
        lemma_clean_node_errors(c, Some(n), bytes, file);
        assert(children_errors(n, k, bytes, file) =~= Seq::<DiagnosticView>::empty());
    }
}

fn error_diag(message: &str, span: SourceSpan) -> (d: Diagnostic)
    ensures
        d@ == error_at(message@, span@),
{
    Diagnostic { message: String::from_str(message), severity: DiagnosticSeverity::Error, span }
}

/// Produce a diagnostic for an ERROR node.
fn make_error_diagnostic(
    node: &SyntaxNode,
    parent: Option<&SyntaxNode>,
    bytes: &[u8],
    file: &String,
) -> (d: Diagnostic)
    requires
        node_wf(*node, bytes@),
    ensures
        d@ == error_diagnostic(*node, deref_opt(parent), bytes@, file@),
{
    let span = clamped_span_of(node, bytes, file);
    if is_swallowed(node, parent) {
        let diag_span = match parent {
            Some(p) => match p.find_child_of_kind("=") {
                Some(eq) => SourceSpan::from_node(eq, file),
                None => span,
            },
            None => span,
        };
        return error_diag("Expected a value", diag_span);
    }
    error_diag("Syntax error", span)
}

/// Produce a diagnostic for a MISSING node (expected but not found).
fn make_missing_diagnostic(node: &SyntaxNode, parent: Option<&SyntaxNode>, file: &String) -> (d:
    Diagnostic)
    ensures
        d@ == missing_diagnostic(*node, deref_opt(parent), file@),
{
    let message = if node.kind_is("true") || node.kind_is("false") || node.kind_is("boolean") {
        String::from_str("Expected a value")
    } else if node.kind_is("}") {
        String::from_str("Missing closing `}`")
    } else if node.kind_is("]") {
        String::from_str("Missing closing `]`")
    } else if node.kind_is("\"") {
        String::from_str("Unclosed string literal")
    } else if node.kind_is("identifier") {
        missing_identifier_message(parent)
    } else {
        let mut m = String::from_str("Expected ");
        m.append(node.kind.as_str());
        m
    };
    Diagnostic {
        message,
        severity: DiagnosticSeverity::Error,
        span: SourceSpan::from_node(node, file),
    }
}

/// Use the parent node to describe which identifier is missing.
fn missing_identifier_message(parent: Option<&SyntaxNode>) -> (m: String)
    ensures
        m@ == missing_identifier_text(deref_opt(parent)),
{
    if let Some(p) = parent {
        if p.kind_is("entity_id") {
            return String::from_str("Missing entity ID");
        } else if p.kind_is("entity_type") {
            return String::from_str("Missing entity type");
        } else if p.kind_is("schema_name") {
            return String::from_str("Missing schema name");
        } else if p.kind_is("field_name") {
            return String::from_str("Missing field name");
        }
    }
    String::from_str("Missing identifier")
}

/// The index of the first newline byte at or after `start`, or the length
/// of `bytes` when there is none.
fn find_newline(bytes: &[u8], start: usize) -> (r: usize)
    requires
        start <= bytes@.len(),
    ensures
        r == first_newline_from(bytes@, start as int),
        start <= r <= bytes@.len(),
{
    let mut i = start;
    while i < bytes.len()
        invariant
            start <= i <= bytes@.len(),
            first_newline_from(bytes@, start as int) == first_newline_from(bytes@, i as int),
        decreases bytes@.len() - i,
    {
        if bytes[i] == 10u8 {
            return i;
        }
        i = i + 1;
    }
    i
}

/// Clamp a span to at most the first line of the node.
/// Prevents large ERROR nodes from underlining the entire file.
fn clamped_span_of(node: &SyntaxNode, bytes: &[u8], file: &String) -> (s: SourceSpan)
    requires
        node_wf(*node, bytes@),
    ensures
        s@ == clamped_span(*node, bytes@, file@),
{
    if node.end_position.row > node.start_position.row {
        let line_end = find_newline(bytes, node.start_byte);
        let end_col = line_end - (node.start_byte - node.start_position.column);
        SourceSpan {
            file: file.clone(),
            start_line: node.start_position.row as u32,
            start_col: node.start_position.column as u32,
            end_line: node.start_position.row as u32,
            end_col: end_col as u32,
        }
    } else {
        SourceSpan::from_node(node, file)
    }
}

/// Check if an ERROR node looks like a swallowed next field assignment.
fn is_swallowed(node: &SyntaxNode, parent: Option<&SyntaxNode>) -> (r: bool)
    ensures
        r == is_swallowed_field(*node, deref_opt(parent)),
{
    let p = match parent {
        Some(p) => {
            if !p.kind_is("field") {
                return false;
            }
            p
        },
        None => return false,
    };
    if !p.has_child_kind("=") {
        return false;
    }
    node.has_child_kind("identifier") && node.has_child_kind("=")
}

proof fn lemma_children_errors_cover(n: SyntaxNode, k: int, j: int, bytes: Seq<u8>, file: Seq<char>)
    requires
        0 <= j < k <= n.children@.len(),
    ensures
        children_errors(n, k, bytes, file).len() >= node_errors(n.children@[j], Some(n), bytes, file).len(),
    decreases k,
{
    if j < k - 1 {
        lemma_children_errors_cover(n, k - 1, j, bytes, file);
    }
}

proof fn lemma_errors_nonempty(n: SyntaxNode, parent: Option<SyntaxNode>, bytes: Seq<u8>, file: Seq<char>)
    requires
        node_wf(n, bytes),
        n.has_error,
    ensures
        node_errors(n, parent, bytes, file).len() > 0,
    decreases n,
{
    if !n.is_error && !n.is_missing {
        assert(some_child_has_error(n));
        let j = choose|j: int| 0 <= j < n.children@.len() && #[trigger] n.children@[j].has_error;
        assert(node_wf(n.children@[j], bytes));
        lemma_errors_nonempty(n.children@[j], Some(n), bytes, file);
        lemma_children_errors_cover(n, n.children@.len() as int, j, bytes, file);
    }
}

/// A parsed file has syntax diagnostics exactly when its tree holds an
/// ERROR or MISSING node.
pub proof fn law_diagnostics_iff_tree_has_error(parsed: ParsedSource)
    requires
        parsed.well_formed(),
    ensures
        (syntax_errors(parsed).len() == 0) <==> !parsed.tree().has_error,
{
    if parsed.tree().has_error {
        lemma_errors_nonempty(parsed.tree(), None, parsed.bytes(), parsed.file());
    } else {
        lemma_clean_node_errors(parsed.tree(), None, parsed.bytes(), parsed.file());
    }
}

/// All diagnostics of a subtree are errors in `file`.
pub open spec fn all_errors_in(ds: Seq<DiagnosticView>, file: Seq<char>) -> bool {
    forall|i: int|
        0 <= i < ds.len() ==> (#[trigger] ds[i]).severity == DiagnosticSeverity::Error
            && ds[i].span.file == file
}

proof fn lemma_node_errors_in_file(n: SyntaxNode, parent: Option<SyntaxNode>, bytes: Seq<u8>, file: Seq<char>)
    ensures
        all_errors_in(node_errors(n, parent, bytes, file), file),
    decreases n, 1int, 0int,
{
    lemma_children_errors_in_file(n, n.children@.len() as int, bytes, file);
}

proof fn lemma_children_errors_in_file(n: SyntaxNode, k: int, bytes: Seq<u8>, file: Seq<char>)
    ensures
        all_errors_in(children_errors(n, k, bytes, file), file),
    decreases n, 0int, k,
{
    if 0 < k <= n.children@.len() {
        lemma_children_errors_in_file(n, k - 1, bytes, file);
        lemma_node_errors_in_file(n.children@[k - 1], Some(n), bytes, file);
        let a = children_errors(n, k - 1, bytes, file);
        let b = node_errors(n.children@[k - 1], Some(n), bytes, file);
        assert forall|i: int| 0 <= i < (a + b).len() implies (#[trigger] (a + b)[i]).severity
            == DiagnosticSeverity::Error && (a + b)[i].span.file == file by {
            if i < a.len() {
                assert((a + b)[i] == a[i]);
            } else {
                assert((a + b)[i] == b[i - a.len()]);
            }
        }
    }
}

/// Every syntax diagnostic is an error, located in the parsed file.
pub proof fn law_syntax_diagnostics_are_errors_in_file(parsed: ParsedSource)
    ensures
        all_errors_in(syntax_errors(parsed), parsed.file()),
{
    lemma_node_errors_in_file(parsed.tree(), None, parsed.bytes(), parsed.file());
}

/// The span of an ERROR node lies on the node's first line and starts
/// where the node does; a node that runs over several lines is underlined
/// up to the end of its first line.
pub proof fn law_error_span_on_first_line(n: SyntaxNode, bytes: Seq<u8>, file: Seq<char>)
    requires
        node_wf(n, bytes),
    ensures
        clamped_span(n, bytes, file).start_line == n.start_position.row as u32,
        clamped_span(n, bytes, file).end_line == n.start_position.row as u32,
        clamped_span(n, bytes, file).start_col == n.start_position.column as u32,
        n.end_position.row > n.start_position.row ==> clamped_span(n, bytes, file).end_col == (
        first_newline_from(bytes, n.start_byte as int) - (n.start_byte - n.start_position.column)) as u32,
{
}

/// The number of ERROR and MISSING nodes in a subtree that have no ERROR or
/// MISSING ancestor within it.
pub open spec fn outermost_error_count(n: SyntaxNode) -> nat
    decreases n, 1int, 0int,
{
    if n.is_error || n.is_missing {
        1
    } else {
        children_outermost_error_count(n, n.children@.len() as int)
    }
}

/// The sum of `outermost_error_count` over the first `k` children of `n`.
pub open spec fn children_outermost_error_count(n: SyntaxNode, k: int) -> nat
    decreases n, 0int, k,
{
    if k <= 0 || k > n.children@.len() {
        0
    } else {
        children_outermost_error_count(n, k - 1) + outermost_error_count(n.children@[k - 1])
    }
}

proof fn lemma_node_errors_count(n: SyntaxNode, parent: Option<SyntaxNode>, bytes: Seq<u8>, file: Seq<char>)
    ensures
        node_errors(n, parent, bytes, file).len() == outermost_error_count(n),
    decreases n, 1int, 0int,
{
    lemma_children_errors_count(n, n.children@.len() as int, bytes, file);
}

proof fn lemma_children_errors_count(n: SyntaxNode, k: int, bytes: Seq<u8>, file: Seq<char>)
    ensures
        children_errors(n, k, bytes, file).len() == children_outermost_error_count(n, k),
    decreases n, 0int, k,
{
    if 0 < k <= n.children@.len() {
        lemma_children_errors_count(n, k - 1, bytes, file);
        lemma_node_errors_count(n.children@[k - 1], Some(n), bytes, file);
    }
}

/// A file gets one syntax diagnostic per ERROR or MISSING node that has no
/// ERROR or MISSING ancestor, wherever in the file it stands: every broken
/// block is reported, not only the first.
pub proof fn law_one_diagnostic_per_outermost_error(parsed: ParsedSource)
    ensures
        syntax_errors(parsed).len() == outermost_error_count(parsed.tree()),
{
    lemma_node_errors_count(parsed.tree(), None, parsed.bytes(), parsed.file());
}

} // verus!
