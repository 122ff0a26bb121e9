//! Syntax diagnostics of `.firm` sources.
//!
//! Each test writes out by hand the concrete syntax tree of its source text:
//! entity blocks hold an `entity_type`, an `entity_id` and a `block`; a block
//! holds `{`, fields and `}`; a field holds a `field_name`, `=` and a
//! `value`. ERROR and MISSING nodes sit where the text breaks the grammar.

use std::path::PathBuf;

use firm_lang::diagnostics::{Diagnostic, DiagnosticSeverity};
use firm_lang::parsed::ParsedSource;
use firm_lang::syntax::collect_syntax_errors;
use firm_lang::syntax_tree::{Point, SyntaxNode};

fn point(src: &str, byte: usize) -> Point {
    let before = &src[..byte];
    let row = before.matches('\n').count();
    let line_start = before.rfind('\n').map(|i| i + 1).unwrap_or(0);
    Point { row, column: byte - line_start }
}

fn node(src: &str, kind: &str, start: usize, end: usize, children: Vec<SyntaxNode>) -> SyntaxNode {
    let has_error = children.iter().any(|c| c.has_error);
    SyntaxNode {
        kind: kind.to_string(),
        is_error: false,
        is_missing: false,
        has_error,
        start_byte: start,
        end_byte: end,
        start_position: point(src, start),
        end_position: point(src, end),
        children,
    }
}

fn tok(src: &str, kind: &str, start: usize, end: usize) -> SyntaxNode {
    node(src, kind, start, end, vec![])
}

fn error(src: &str, start: usize, end: usize, children: Vec<SyntaxNode>) -> SyntaxNode {
    let mut n = node(src, "ERROR", start, end, children);
    n.is_error = true;
    n.has_error = true;
    n
}

fn missing(src: &str, kind: &str, at: usize) -> SyntaxNode {
    let mut n = node(src, kind, at, at, vec![]);
    n.is_missing = true;
    n.has_error = true;
    n
}

/// Byte offset of the `n`-th (from 0) occurrence of `needle`.
fn nth(src: &str, needle: &str, n: usize) -> usize {
    src.match_indices(needle).nth(n).map(|(i, _)| i).unwrap()
}

fn ident(src: &str, wrapper: &str, at: usize, len: usize) -> SyntaxNode {
    node(src, wrapper, at, at + len, vec![tok(src, "identifier", at, at + len)])
}

/// A field `name = value` whose value is the token at `value_at..value_end`.
fn field(src: &str, name_at: usize, name_len: usize, value_kind: &str, value_at: usize, value_end: usize) -> SyntaxNode {
    let eq = name_at + src[name_at..].find('=').unwrap();
    node(
        src,
        "field",
        name_at,
        value_end,
        vec![
            ident(src, "field_name", name_at, name_len),
            tok(src, "=", eq, eq + 1),
            node(src, "value", value_at, value_end, vec![tok(src, value_kind, value_at, value_end)]),
        ],
    )
}

fn entity(src: &str, start: usize, type_len: usize, id: Option<(usize, usize)>, block: SyntaxNode) -> SyntaxNode {
    let end = block.end_byte;
    let id_node = match id {
        Some((at, len)) => ident(src, "entity_id", at, len),
        None => {
            let at = block.start_byte;
            node(src, "entity_id", at, at, vec![missing(src, "identifier", at)])
        },
    };
    node(
        src,
        "entity_block",
        start,
        end,
        vec![ident(src, "entity_type", start, type_len), id_node, block],
    )
}

fn block(src: &str, start: usize, end: usize, mut inner: Vec<SyntaxNode>, closed: bool) -> SyntaxNode {
    let mut children = vec![tok(src, "{", start, start + 1)];
    children.append(&mut inner);
    if closed {
        children.push(tok(src, "}", end - 1, end));
    } else {
        children.push(missing(src, "}", end));
    }
    node(src, "block", start, end, children)
}

fn diagnostics_for(source: &str, root: SyntaxNode) -> Vec<Diagnostic> {
    let parsed = ParsedSource::new(root, String::from(source), String::from("test.firm")).unwrap();
    collect_syntax_errors(&parsed)
}

fn file(src: &str, children: Vec<SyntaxNode>) -> SyntaxNode {
    node(src, "source_file", 0, src.len(), children)
}

#[test]
fn test_no_errors_for_valid_source() {
    let src = r#"
            contact john_doe {
                name = "John Doe"
                age = 42
            }
        "#;
    let start = nth(src, "contact", 0);
    let open = nth(src, "{", 0);
    let close = nth(src, "}", 0) + 1;
    let name_value = nth(src, "\"", 0);
    let age_value = nth(src, "42", 0);
    let root = file(
        src,
        vec![entity(
            src,
            start,
            7,
            Some((nth(src, "john_doe", 0), 8)),
            block(
                src,
                open,
                close,
                vec![
                    field(src, nth(src, "name", 0), 4, "string", name_value, name_value + 10),
                    field(src, nth(src, "age", 0), 3, "number", age_value, age_value + 2),
                ],
                true,
            ),
        )],
    );
    let diagnostics = diagnostics_for(src, root);
    assert!(diagnostics.is_empty());
}

#[test]
fn test_unclosed_brace_at_eof() {
    let src = "contact john {\n    name = \"John\"";
    let value = nth(src, "\"", 0);
    let root = file(
        src,
        vec![entity(
            src,
            0,
            7,
            Some((8, 4)),
            block(
                src,
                13,
                src.len(),
                vec![field(src, nth(src, "name", 0), 4, "string", value, src.len())],
                false,
            ),
        )],
    );
    let diagnostics = diagnostics_for(src, root);
    assert_eq!(diagnostics.len(), 1);
    assert_eq!(diagnostics[0].message, "Missing closing `}`");
}

#[test]
fn test_unclosed_brace_with_following_entity() {
    let src = "contact john {\n    name = \"John\"\n\ncontact jane {\n    name = \"Jane\"\n}";
    let john_value = nth(src, "\"", 0);
    let jane_start = nth(src, "contact", 1);
    let jane_value = nth(src, "\"", 2);
    let root = file(
        src,
        vec![
            entity(
                src,
                0,
                7,
                Some((8, 4)),
                block(
                    src,
                    13,
                    john_value + 6,
                    vec![field(src, nth(src, "name", 0), 4, "string", john_value, john_value + 6)],
                    false,
                ),
            ),
            entity(
                src,
                jane_start,
                7,
                Some((nth(src, "jane", 0), 4)),
                block(
                    src,
                    nth(src, "{", 1),
                    src.len(),
                    vec![field(src, nth(src, "name", 1), 4, "string", jane_value, jane_value + 6)],
                    true,
                ),
            ),
        ],
    );
    let diagnostics = diagnostics_for(src, root);
    // Should include a missing } diagnostic
    assert!(diagnostics.iter().any(|d| d.message.contains("}")));
}

/// An entity `contact john` whose block holds the given fields and then an
/// ERROR node running from `error_start` to just before the final `}`.
fn broken_string_tree(src: &str, fields: Vec<SyntaxNode>, error_start: usize) -> SyntaxNode {
    let close = src.len() - 1;
    let mut inner = fields;
    let eq = error_start + src[error_start..].find('=').unwrap();
    let quote = nth(src, "\"", src.matches('"').count() - 1);
    inner.push(error(
        src,
        error_start,
        close - 1,
        vec![
            tok(src, "identifier", error_start, eq - 1),
            tok(src, "=", eq, eq + 1),
            tok(src, "\"", quote, quote + 1),
        ],
    ));
    file(src, vec![entity(src, 0, 7, Some((8, 4)), block(src, 13, src.len(), inner, true))])
}

#[test]
fn test_unclosed_string() {
    let src = "contact john {\n    name = \"John\n    age = 42\n}";
    let root = broken_string_tree(src, vec![], nth(src, "name", 0));
    let diagnostics = diagnostics_for(src, root);
    assert!(!diagnostics.is_empty());
    // Should be clamped to first line, not span the whole file
    assert_eq!(diagnostics[0].span.start_line, diagnostics[0].span.end_line);
}

/// A field `name =` whose value is missing, followed by the given nodes in
/// the field, all in an entity `contact john`.
fn missing_value_tree(src: &str, before: Vec<SyntaxNode>, name_at: usize, rest: Vec<SyntaxNode>, value_end: usize) -> SyntaxNode {
    let eq = name_at + src[name_at..].find('=').unwrap();
    let mut field_children = vec![ident(src, "field_name", name_at, 4), tok(src, "=", eq, eq + 1)];
    field_children.extend(rest);
    let f = node(src, "field", name_at, value_end, field_children);
    let mut inner = before;
    inner.push(f);
    file(src, vec![entity(src, 0, 7, Some((8, 4)), block(src, 13, src.len(), inner, true))])
}

#[test]
fn test_missing_value_at_end() {
    let src = "contact john {\n    name =\n}";
    let name_at = nth(src, "name", 0);
    let eq = nth(src, "=", 0);
    let root = missing_value_tree(
        src,
        vec![],
        name_at,
        vec![node(src, "value", eq + 1, eq + 1, vec![missing(src, "true", eq + 1)])],
        eq + 1,
    );
    let diagnostics = diagnostics_for(src, root);
    assert_eq!(diagnostics.len(), 1);
    assert_eq!(diagnostics[0].message, "Expected a value");
}

/// The ERROR node that swallows `age =` and the value `42` after it.
fn swallowed_age(src: &str) -> Vec<SyntaxNode> {
    let age = nth(src, "age", 0);
    let eq = nth(src, "=", 1 + src[..age].matches('=').count() - 1);
    let value = nth(src, "42", 0);
    vec![
        error(src, age, eq + 1, vec![tok(src, "identifier", age, age + 3), tok(src, "=", eq, eq + 1)]),
        node(src, "value", value, value + 2, vec![tok(src, "number", value, value + 2)]),
    ]
}

#[test]
fn test_missing_value_with_following_field() {
    // Real editing: missing value with more fields after
    let src = "contact john {\n    name =\n    age = 42\n}";
    let value_end = nth(src, "42", 0) + 2;
    let root = missing_value_tree(src, vec![], nth(src, "name", 0), swallowed_age(src), value_end);
    let diagnostics = diagnostics_for(src, root);
    assert_eq!(diagnostics.len(), 1);
    assert_eq!(diagnostics[0].message, "Expected a value");
}

#[test]
fn test_missing_value_mid_block() {
    let src = "contact john {\n    title = \"CTO\"\n    name =\n    age = 42\n}";
    let title_value = nth(src, "\"", 0);
    let title = field(src, nth(src, "title", 0), 5, "string", title_value, title_value + 5);
    let value_end = nth(src, "42", 0) + 2;
    let root = missing_value_tree(src, vec![title], nth(src, "name", 0), swallowed_age(src), value_end);
    let diagnostics = diagnostics_for(src, root);
    assert_eq!(diagnostics.len(), 1);
    assert_eq!(diagnostics[0].message, "Expected a value");
}

fn missing_id_tree(src: &str) -> SyntaxNode {
    let value = nth(src, "\"", 0);
    let open = nth(src, "{", 0);
    file(
        src,
        vec![entity(
            src,
            0,
            7,
            None,
            block(
                src,
                open,
                src.len(),
                vec![field(src, nth(src, "name", 0), 4, "string", value, value + 6)],
                true,
            ),
        )],
    )
}

#[test]
fn test_missing_entity_id() {
    let src = "contact {\n    name = \"Test\"\n}";
    let diagnostics = diagnostics_for(src, missing_id_tree(src));
    assert_eq!(diagnostics.len(), 1);
    assert_eq!(diagnostics[0].message, "Missing entity ID");
}

#[test]
fn test_missing_field_name() {
    let src = "contact john {\n    = \"Test\"\n}";
    let eq = nth(src, "=", 0);
    let value = nth(src, "\"", 0);
    let err = error(
        src,
        eq,
        value + 6,
        vec![tok(src, "=", eq, eq + 1), tok(src, "string", value, value + 6)],
    );
    let root = file(src, vec![entity(src, 0, 7, Some((8, 4)), block(src, 13, src.len(), vec![err], true))]);
    let diagnostics = diagnostics_for(src, root);
    assert_eq!(diagnostics.len(), 1);
    assert_eq!(diagnostics[0].message, "Syntax error");
}

#[test]
fn test_error_includes_file_path() {
    let src = "contact {\n    name = \"Test\"\n}";
    let diagnostics = diagnostics_for(src, missing_id_tree(src));
    assert_eq!(PathBuf::from(&diagnostics[0].span.file), PathBuf::from("test.firm"));
}

#[test]
fn test_unclosed_string_mid_entity() {
    let src = "contact john {\n    title = \"CTO\"\n    name = \"John\n    age = 42\n}";
    let title_value = nth(src, "\"", 0);
    let title = field(src, nth(src, "title", 0), 5, "string", title_value, title_value + 5);
    let root = broken_string_tree(src, vec![title], nth(src, "name", 0));
    let diagnostics = diagnostics_for(src, root);
    assert!(!diagnostics.is_empty());
    // Clamped to one line
    assert_eq!(diagnostics[0].span.start_line, diagnostics[0].span.end_line);
}

#[test]
fn test_unclosed_string_first_field() {
    let src = "contact john {\n    name = \"John\n}";
    let root = broken_string_tree(src, vec![], nth(src, "name", 0));
    let diagnostics = diagnostics_for(src, root);
    assert!(!diagnostics.is_empty());
    assert_eq!(diagnostics[0].span.start_line, diagnostics[0].span.end_line);
}

#[test]
fn test_error_spans_full_line() {
    // Multi-line ERROR node should be clamped to the full first line
    let src = "contact john {\n    name = \"John\n    age = 42\n}";
    let root = broken_string_tree(src, vec![], nth(src, "name", 0));
    let diagnostics = diagnostics_for(src, root);
    assert!(!diagnostics.is_empty());
    let span = &diagnostics[0].span;
    assert_eq!(span.start_line, span.end_line);
    // Should span more than 1 character (the whole line content)
    assert!(span.end_col > span.start_col + 1);
}

#[test]
fn error_span_reaches_end_of_first_line() {
    let src = "contact john {\n    name = \"John\n    age = 42\n}";
    let root = broken_string_tree(src, vec![], nth(src, "name", 0));
    let diagnostics = diagnostics_for(src, root);
    assert_eq!(diagnostics.len(), 1);
    assert_eq!(diagnostics[0].message, "Syntax error");
    assert_eq!(diagnostics[0].severity, DiagnosticSeverity::Error);
    assert_eq!((diagnostics[0].span.start_line, diagnostics[0].span.start_col), (1, 4));
    assert_eq!((diagnostics[0].span.end_line, diagnostics[0].span.end_col), (1, 16));
}

#[test]
fn swallowed_field_points_at_equals_sign() {
    let src = "contact john {\n    name =\n    age = 42\n}";
    let value_end = nth(src, "42", 0) + 2;
    let root = missing_value_tree(src, vec![], nth(src, "name", 0), swallowed_age(src), value_end);
    let diagnostics = diagnostics_for(src, root);
    let span = &diagnostics[0].span;
    assert_eq!((span.start_line, span.start_col, span.end_line, span.end_col), (1, 9, 1, 10));
}

#[test]
fn missing_kinds_have_their_messages() {
    let src = "x";
    for (kind, message) in [
        ("]", "Missing closing `]`"),
        ("\"", "Unclosed string literal"),
        ("false", "Expected a value"),
        ("boolean", "Expected a value"),
        ("value", "Expected value"),
    ] {
        let root = file(src, vec![missing(src, kind, 1)]);
        let diagnostics = diagnostics_for(src, root);
        assert_eq!(diagnostics.len(), 1);
        assert_eq!(diagnostics[0].message, message);
    }
}

#[test]
fn missing_identifiers_are_named_by_parent() {
    let src = "x";
    for (parent, message) in [
        ("entity_type", "Missing entity type"),
        ("schema_name", "Missing schema name"),
        ("field_name", "Missing field name"),
        ("block", "Missing identifier"),
    ] {
        let root = file(src, vec![node(src, parent, 1, 1, vec![missing(src, "identifier", 1)])]);
        let diagnostics = diagnostics_for(src, root);
        assert_eq!(diagnostics[0].message, message);
    }
    let root = missing(src, "identifier", 0);
    assert_eq!(diagnostics_for(src, root)[0].message, "Missing identifier");
}

#[test]
fn diagnostics_come_in_document_order() {
    let src = "contact {\n    = \"Test\"\n";
    let eq = nth(src, "=", 0);
    let err = error(src, eq, eq + 1, vec![tok(src, "=", eq, eq + 1)]);
    let blk = block(src, 8, src.len(), vec![err], false);
    let root = file(src, vec![entity(src, 0, 7, None, blk)]);
    let messages: Vec<String> = diagnostics_for(src, root).into_iter().map(|d| d.message).collect();
    assert_eq!(messages, vec!["Missing entity ID", "Syntax error", "Missing closing `}`"]);
}

#[test]
fn inconsistent_tree_is_refused() {
    let src = "contact";
    let mut root = tok(src, "source_file", 0, 7);
    root.end_byte = 8;
    assert!(ParsedSource::new(root, String::from(src), String::from("a.firm")).is_none());
    let mut flagged = tok(src, "source_file", 0, 7);
    flagged.has_error = true;
    assert!(ParsedSource::new(flagged, String::from(src), String::from("a.firm")).is_none());
}

#[test]
fn positions_that_disagree_with_the_text_are_refused() {
    let src = "a\nbc";
    let good = file(src, vec![tok(src, "identifier", 2, 4)]);
    assert_eq!(good.children[0].start_position.row, 1);
    assert_eq!(good.children[0].start_position.column, 0);
    assert!(ParsedSource::new(good, String::from(src), String::from("a.firm")).is_some());

    let mut wrong_row = file(src, vec![tok(src, "identifier", 2, 4)]);
    wrong_row.children[0].start_position = Point { row: 0, column: 0 };
    assert!(ParsedSource::new(wrong_row, String::from(src), String::from("a.firm")).is_none());

    let mut wrong_column = file(src, vec![tok(src, "identifier", 2, 4)]);
    wrong_column.children[0].end_position = Point { row: 1, column: 3 };
    assert!(ParsedSource::new(wrong_column, String::from(src), String::from("a.firm")).is_none());
}

#[test]
fn diagnostic_renders_with_one_based_position() {
    let src = "contact {\n    name = \"Test\"\n}";
    let diagnostics = diagnostics_for(src, missing_id_tree(src));
    assert_eq!(diagnostics[0].render(), "test.firm:1:9: error: Missing entity ID");
}
