//! Workspace-level diagnostics, workspace bookkeeping and the check command.
//!
//! The sources here are all well formed; `parse` below builds their syntax
//! trees. What the core model makes of the blocks (schema types, parsed
//! values, built entities, validation errors) is written out per test in
//! `SourceFacts`.

use std::path::PathBuf;

use firm_lang::check::{check, report_diagnostics, summary_message, CliError};
use firm_lang::parsed::ParsedSource;
use firm_lang::syntax_tree::{Point, SyntaxNode};
use firm_lang::workspace::Workspace;
use firm_lang::workspace_diagnostics::{
    collect_workspace_diagnostics, compose_entity_id, facts_fit_workspace, BuiltEntity, EntityFacts,
    ParsedValue, SourceFacts, ValidationErrorKind, ValidationIssue,
};

// ---------------------------------------------------------------------------
// Building syntax trees of well-formed sources.

struct Parser<'s> {
    src: &'s str,
    pos: usize,
}

fn point(src: &str, byte: usize) -> Point {
    let before = &src[..byte];
    let row = before.matches('\n').count();
    let line_start = before.rfind('\n').map(|i| i + 1).unwrap_or(0);
    Point { row, column: byte - line_start }
}

fn node(src: &str, kind: &str, start: usize, end: usize, children: Vec<SyntaxNode>) -> SyntaxNode {
    SyntaxNode {
        kind: kind.to_string(),
        is_error: false,
        is_missing: false,
        has_error: false,
        start_byte: start,
        end_byte: end,
        start_position: point(src, start),
        end_position: point(src, end),
        children,
    }
}

impl<'s> Parser<'s> {
    fn skip_ws(&mut self) {
        while self.pos < self.src.len() && self.src.as_bytes()[self.pos].is_ascii_whitespace() {
            self.pos += 1;
        }
    }

    fn ident(&mut self) -> (usize, usize) {
        self.skip_ws();
        let start = self.pos;
        while self.pos < self.src.len() {
            let c = self.src.as_bytes()[self.pos];
            if c.is_ascii_alphanumeric() || c == b'_' {
                self.pos += 1;
            } else {
                break;
            }
        }
        (start, self.pos)
    }

    fn wrapped_ident(&mut self, kind: &str) -> SyntaxNode {
        let (s, e) = self.ident();
        node(self.src, kind, s, e, vec![node(self.src, "identifier", s, e, vec![])])
    }

    fn punct(&mut self, p: &str) -> SyntaxNode {
        self.skip_ws();
        assert!(self.src[self.pos..].starts_with(p));
        let s = self.pos;
        self.pos += p.len();
        node(self.src, p, s, self.pos, vec![])
    }

    fn peek(&mut self) -> u8 {
        self.skip_ws();
        self.src.as_bytes()[self.pos]
    }

    fn block(&mut self) -> SyntaxNode {
        let open = self.punct("{");
        let start = open.start_byte;
        let mut children = vec![open];
        while self.peek() != b'}' {
            let save = self.pos;
            let (_, _) = self.ident();
            let next = self.peek();
            self.pos = save;
            if next == b'{' {
                let bt = self.wrapped_ident("block_type");
                let b = self.block();
                let (s, e) = (bt.start_byte, b.end_byte);
                children.push(node(self.src, "nested_block", s, e, vec![bt, b]));
            } else {
                let name = self.wrapped_ident("field_name");
                let eq = self.punct("=");
                self.skip_ws();
                let vs = self.pos;
                let line_end = self.src[vs..].find('\n').map(|i| vs + i).unwrap_or(self.src.len());
                let ve = vs + self.src[vs..line_end].trim_end().len();
                self.pos = ve;
                let value = node(self.src, "value", vs, ve, vec![]);
                let s = name.start_byte;
                children.push(node(self.src, "field", s, ve, vec![name, eq, value]));
            }
        }
        let close = self.punct("}");
        let end = close.end_byte;
        children.push(close);
        node(self.src, "block", start, end, children)
    }

    fn file(&mut self) -> SyntaxNode {
        let mut children = vec![];
        self.skip_ws();
        while self.pos < self.src.len() {
            let save = self.pos;
            let (s, e) = self.ident();
            if &self.src[s..e] == "schema" {
                let kw = node(self.src, "schema", s, e, vec![]);
                let name = self.wrapped_ident("schema_name");
                let b = self.block();
                let end = b.end_byte;
                children.push(node(self.src, "schema_block", save, end, vec![kw, name, b]));
            } else {
                self.pos = save;
                let t = self.wrapped_ident("entity_type");
                let id = self.wrapped_ident("entity_id");
                let b = self.block();
                let end = b.end_byte;
                children.push(node(self.src, "entity_block", t.start_byte, end, vec![t, id, b]));
            }
            self.skip_ws();
        }
        node(self.src, "source_file", 0, self.src.len(), children)
    }
}

fn parse(path: &str, source: &str) -> ParsedSource {
    let root = Parser { src: source, pos: 0 }.file();
    ParsedSource::new(root, String::from(source), String::from(path)).unwrap()
}

/// Helper: create a workspace from multiple (path, source) pairs.
fn workspace_from_sources(files: &[(&str, &str)]) -> Workspace {
    let mut workspace = Workspace::new();
    for (path, source) in files {
        workspace.add_parsed_source(parse(path, source));
    }
    workspace
}

// ---------------------------------------------------------------------------
// Facts: what the core model makes of the blocks.

fn value_of(text: &str) -> ParsedValue {
    let t = text.trim();
    if t.starts_with('[') && t.ends_with(']') {
        let inner = &t[1..t.len() - 1];
        let items = inner.split(',').filter(|s| !s.trim().is_empty()).map(value_of).collect();
        return ParsedValue::List(items);
    }
    let is_path = !t.is_empty()
        && t.as_bytes()[0].is_ascii_alphabetic()
        && t.bytes().all(|c| c.is_ascii_alphanumeric() || c == b'_' || c == b'.');
    let parts: Vec<&str> = t.split('.').collect();
    if is_path && parts.len() == 2 {
        ParsedValue::EntityReference { entity_type: parts[0].to_string(), entity_id: parts[1].to_string() }
    } else if is_path && parts.len() == 3 {
        ParsedValue::FieldReference {
            entity_type: parts[0].to_string(),
            entity_id: parts[1].to_string(),
            field_id: parts[2].to_string(),
        }
    } else {
        ParsedValue::Other
    }
}

/// Facts in which every schema builds, every value parses by its shape,
/// every entity builds, and every entity validates.
fn default_facts(workspace: &Workspace) -> Vec<SourceFacts> {
    let mut facts = vec![];
    for parsed in workspace.parsed_sources() {
        let schemas = parsed.schemas().iter().map(|s| Ok(s.name().unwrap().to_string())).collect();
        let mut entities = vec![];
        for e in parsed.entities() {
            let fields = e.fields();
            let values = fields
                .iter()
                .map(|f| {
                    let v = f.value_node().unwrap();
                    Ok(value_of(&parsed.source()[v.start_byte..v.end_byte]))
                })
                .collect();
            let id = format!("{}.{}", e.entity_type().unwrap(), e.id().unwrap());
            let field_ids = fields.iter().map(|f| f.id().unwrap().to_string()).collect();
            entities.push(EntityFacts {
                values,
                built: Some(BuiltEntity { id, field_ids }),
                validation: Ok(()),
            });
        }
        facts.push(SourceFacts { schemas, entities });
    }
    facts
}

fn file_index(workspace: &Workspace, path: &str) -> usize {
    workspace.file_paths().iter().position(|p| p.as_str() == path).unwrap()
}

fn issue(message: &str, field: Option<&str>, kind: ValidationErrorKind) -> ValidationIssue {
    ValidationIssue { message: message.to_string(), field: field.map(|f| f.to_string()), kind }
}

fn diagnostics(workspace: &Workspace, facts: &Vec<SourceFacts>) -> Vec<firm_lang::diagnostics::Diagnostic> {
    assert!(facts_fit_workspace(workspace, facts));
    collect_workspace_diagnostics(workspace, facts)
}

const CONTACT_SCHEMA: &str = r#"
                schema contact {
                    field {
                        name = "name"
                        type = "string"
                        required = true
                    }
                }
                "#;

#[test]
fn test_valid_workspace_no_diagnostics() {
    let workspace = workspace_from_sources(&[
        ("schemas.firm", CONTACT_SCHEMA),
        (
            "contacts.firm",
            r#"
                contact john_doe {
                    name = "John Doe"
                }
                "#,
        ),
    ]);

    let facts = default_facts(&workspace);
    let diagnostics = diagnostics(&workspace, &facts);
    assert!(diagnostics.is_empty(), "Expected no diagnostics, got: {:?}", diagnostics);
}

const INVOICE_SCHEMA: &str = r#"
                schema invoice {
                    field {
                        name = "amount"
                        type = "currency"
                        required = true
                    }
                }
                "#;

#[test]
fn test_invalid_currency_code() {
    let workspace = workspace_from_sources(&[
        ("schemas.firm", INVOICE_SCHEMA),
        (
            "invoices.firm",
            r#"
                invoice inv_001 {
                    amount = 100.50 XYZ
                }
                "#,
        ),
    ]);

    let mut facts = default_facts(&workspace);
    let i = file_index(&workspace, "invoices.firm");
    facts[i].entities[0].values[0] = Err("Currency code 'XYZ' is not a known currency".to_string());
    facts[i].entities[0].built = None;
    let diagnostics = diagnostics(&workspace, &facts);
    assert_eq!(diagnostics.len(), 1);
    assert!(diagnostics[0].message.contains("Currency code"));
    assert_eq!(PathBuf::from(&diagnostics[0].span.file), PathBuf::from("invoices.firm"));
}

#[test]
fn test_missing_required_field() {
    let workspace = workspace_from_sources(&[
        (
            "schemas.firm",
            r#"
                schema contact {
                    field {
                        name = "name"
                        type = "string"
                        required = true
                    }
                    field {
                        name = "email"
                        type = "string"
                        required = true
                    }
                }
                "#,
        ),
        (
            "contacts.firm",
            r#"
                contact john_doe {
                    name = "John Doe"
                }
                "#,
        ),
    ]);

    let mut facts = default_facts(&workspace);
    let i = file_index(&workspace, "contacts.firm");
    facts[i].entities[0].validation = Err(vec![issue(
        "Missing required field 'email'",
        Some("email"),
        ValidationErrorKind::MissingRequiredField,
    )]);
    let diagnostics = diagnostics(&workspace, &facts);
    assert_eq!(diagnostics.len(), 1);
    assert!(diagnostics[0].message.contains("Missing required field"));
    assert!(diagnostics[0].message.contains("email"));
    // Missing field points at the entity node
    assert_eq!(PathBuf::from(&diagnostics[0].span.file), PathBuf::from("contacts.firm"));
    assert_eq!(diagnostics[0].span.start_line, 1);
    assert_eq!(diagnostics[0].span.end_line, 3);
}

#[test]
fn test_mismatched_field_type() {
    let workspace = workspace_from_sources(&[
        (
            "schemas.firm",
            r#"
                schema contact {
                    field {
                        name = "age"
                        type = "integer"
                        required = true
                    }
                }
                "#,
        ),
        (
            "contacts.firm",
            r#"
                contact john_doe {
                    age = "not a number"
                }
                "#,
        ),
    ]);

    let mut facts = default_facts(&workspace);
    let i = file_index(&workspace, "contacts.firm");
    facts[i].entities[0].validation = Err(vec![issue(
        "Field 'age' has the wrong type: expected Integer, found String",
        Some("age"),
        ValidationErrorKind::MismatchedFieldType,
    )]);
    let diagnostics = diagnostics(&workspace, &facts);
    assert_eq!(diagnostics.len(), 1);
    assert!(diagnostics[0].message.contains("type"));
    assert_eq!(PathBuf::from(&diagnostics[0].span.file), PathBuf::from("contacts.firm"));
    // A type error points at the value
    assert_eq!((diagnostics[0].span.start_line, diagnostics[0].span.start_col), (2, 26));
}

#[test]
fn test_invalid_enum_value() {
    let workspace = workspace_from_sources(&[
        (
            "schemas.firm",
            r#"
                schema account {
                    field {
                        name = "status"
                        type = "enum"
                        required = true
                        allowed_values = ["prospect", "customer", "partner"]
                    }
                }
                "#,
        ),
        (
            "accounts.firm",
            r#"
                account acme {
                    status = enum"invalid_status"
                }
                "#,
        ),
    ]);

    let mut facts = default_facts(&workspace);
    let i = file_index(&workspace, "accounts.firm");
    facts[i].entities[0].validation = Err(vec![issue(
        "Invalid value 'invalid_status' for field 'status'",
        Some("status"),
        ValidationErrorKind::InvalidEnumValue,
    )]);
    let diagnostics = diagnostics(&workspace, &facts);
    assert_eq!(diagnostics.len(), 1);
    assert!(diagnostics[0].message.contains("Invalid value"));
    assert!(diagnostics[0].message.contains("invalid_status"));
}

const CONTACT_WITH_REFERENCE: &str = r#"
                schema contact {
                    field {
                        name = "name"
                        type = "string"
                        required = true
                    }
                    field {
                        name = "manager"
                        type = "reference"
                    }
                }
                "#;

#[test]
fn test_broken_entity_reference() {
    let workspace = workspace_from_sources(&[
        ("schemas.firm", CONTACT_WITH_REFERENCE),
        (
            "contacts.firm",
            r#"
                contact john_doe {
                    name = "John Doe"
                    manager = contact.nonexistent_person
                }
                "#,
        ),
    ]);

    let facts = default_facts(&workspace);
    let diagnostics = diagnostics(&workspace, &facts);
    assert_eq!(diagnostics.len(), 1);
    assert!(diagnostics[0].message.contains("unknown entity"));
    assert!(diagnostics[0].message.contains("contact.nonexistent_person"));
}

#[test]
fn test_missing_schema() {
    let workspace = workspace_from_sources(&[(
        "contacts.firm",
        r#"
            contact john_doe {
                name = "John Doe"
            }
            "#,
    )]);

    let facts = default_facts(&workspace);
    let diagnostics = diagnostics(&workspace, &facts);
    assert_eq!(diagnostics.len(), 1);
    assert!(diagnostics[0].message.contains("No schema defined"));
    assert!(diagnostics[0].message.contains("contact"));
}

#[test]
fn test_valid_reference_no_diagnostic() {
    let workspace = workspace_from_sources(&[
        ("schemas.firm", CONTACT_WITH_REFERENCE),
        (
            "contacts.firm",
            r#"
                contact jane_doe {
                    name = "Jane Doe"
                }

                contact john_doe {
                    name = "John Doe"
                    manager = contact.jane_doe
                }
                "#,
        ),
    ]);

    let facts = default_facts(&workspace);
    let diagnostics = diagnostics(&workspace, &facts);
    assert!(diagnostics.is_empty(), "Expected no diagnostics, got: {:?}", diagnostics);
}

#[test]
fn test_value_error_skips_schema_validation() {
    // Entity with a value parse error should not also report schema validation errors.
    // Fix value errors first, then schema errors appear.
    let workspace = workspace_from_sources(&[
        (
            "schemas.firm",
            r#"
                schema invoice {
                    field {
                        name = "amount"
                        type = "currency"
                        required = true
                    }
                    field {
                        name = "description"
                        type = "string"
                        required = true
                    }
                }
                "#,
        ),
        (
            "invoices.firm",
            r#"
                invoice inv_001 {
                    amount = 100.50 INVALID
                }
                "#,
        ),
    ]);

    let mut facts = default_facts(&workspace);
    let i = file_index(&workspace, "invoices.firm");
    facts[i].entities[0].values[0] = Err("Currency code 'INVALID' is not a known currency".to_string());
    facts[i].entities[0].validation = Err(vec![issue(
        "Missing required field 'description'",
        Some("description"),
        ValidationErrorKind::MissingRequiredField,
    )]);
    let diagnostics = diagnostics(&workspace, &facts);
    // Should only have the value parse error, not the missing "description" field error
    assert_eq!(diagnostics.len(), 1);
    assert!(diagnostics[0].message.contains("Currency code"));
}

const CONTACT_WITH_NICKNAME: &str = r#"
                schema contact {
                    field {
                        name = "name"
                        type = "string"
                        required = true
                    }
                    field {
                        name = "nickname"
                        type = "reference"
                    }
                }
                "#;

#[test]
fn test_broken_field_reference() {
    let workspace = workspace_from_sources(&[
        ("schemas.firm", CONTACT_WITH_NICKNAME),
        (
            "contacts.firm",
            r#"
                contact jane_doe {
                    name = "Jane Doe"
                }

                contact john_doe {
                    name = "John Doe"
                    nickname = contact.jane_doe.nonexistent_field
                }
                "#,
        ),
    ]);

    let facts = default_facts(&workspace);
    let diagnostics = diagnostics(&workspace, &facts);
    assert_eq!(diagnostics.len(), 1);
    assert!(diagnostics[0].message.contains("has no field"));
    assert!(diagnostics[0].message.contains("nonexistent_field"));
}

#[test]
fn test_valid_field_reference_no_diagnostic() {
    let workspace = workspace_from_sources(&[
        ("schemas.firm", CONTACT_WITH_NICKNAME),
        (
            "contacts.firm",
            r#"
                contact jane_doe {
                    name = "Jane Doe"
                }

                contact john_doe {
                    name = "John Doe"
                    nickname = contact.jane_doe.name
                }
                "#,
        ),
    ]);

    let facts = default_facts(&workspace);
    let diagnostics = diagnostics(&workspace, &facts);
    assert!(diagnostics.is_empty(), "Expected no diagnostics, got: {:?}", diagnostics);
}

// ---------------------------------------------------------------------------
// Further workspace diagnostics.

#[test]
fn invalid_schema_is_reported_at_schema() {
    let workspace = workspace_from_sources(&[("schemas.firm", CONTACT_SCHEMA)]);
    let mut facts = default_facts(&workspace);
    facts[0].schemas[0] = Err("unknown field type 'strng'".to_string());
    let diagnostics = diagnostics(&workspace, &facts);
    assert_eq!(diagnostics.len(), 1);
    assert_eq!(diagnostics[0].message, "Invalid schema: unknown field type 'strng'");
    assert_eq!(diagnostics[0].span.start_line, 1);
}

#[test]
fn exact_reference_messages() {
    let workspace = workspace_from_sources(&[
        ("schemas.firm", CONTACT_WITH_NICKNAME),
        (
            "contacts.firm",
            "contact jane_doe {\n    name = \"Jane\"\n}\ncontact john_doe {\n    name = \"John\"\n    nickname = [contact.ghost, contact.jane_doe.age]\n}\n",
        ),
    ]);
    let facts = default_facts(&workspace);
    let diagnostics = diagnostics(&workspace, &facts);
    let messages: Vec<&str> = diagnostics.iter().map(|d| d.message.as_str()).collect();
    assert_eq!(
        messages,
        vec!["Reference to unknown entity 'contact.ghost'", "Entity 'contact.jane_doe' has no field 'age'"]
    );
    assert_eq!((diagnostics[0].span.start_line, diagnostics[0].span.start_col), (5, 15));
    assert_eq!(
        diagnostics[0].render(),
        "contacts.firm:6:16: error: Reference to unknown entity 'contact.ghost'"
    );
}

#[test]
fn entity_with_value_error_is_not_a_reference_target() {
    let workspace = workspace_from_sources(&[
        ("schemas.firm", CONTACT_WITH_REFERENCE),
        (
            "contacts.firm",
            "contact jane_doe {\n    name = 12x\n}\ncontact john_doe {\n    name = \"John\"\n    manager = contact.jane_doe\n}\n",
        ),
    ]);
    let mut facts = default_facts(&workspace);
    let i = file_index(&workspace, "contacts.firm");
    facts[i].entities[0].values[0] = Err("Invalid number".to_string());
    let diagnostics = diagnostics(&workspace, &facts);
    let messages: Vec<&str> = diagnostics.iter().map(|d| d.message.as_str()).collect();
    assert_eq!(messages, vec!["Invalid number", "Reference to unknown entity 'contact.jane_doe'"]);
}

#[test]
fn facts_that_do_not_fit_are_detected() {
    let workspace = workspace_from_sources(&[("schemas.firm", CONTACT_SCHEMA)]);
    let mut facts = default_facts(&workspace);
    facts[0].schemas.push(Ok("extra".to_string()));
    assert!(!facts_fit_workspace(&workspace, &facts));
    assert!(!facts_fit_workspace(&workspace, &vec![]));
}

#[test]
fn compose_joins_with_dot() {
    assert_eq!(compose_entity_id("contact", "john_doe"), "contact.john_doe");
}

// ---------------------------------------------------------------------------
// Workspace bookkeeping.

#[test]
fn workspace_counts_and_replaces_files() {
    let mut workspace = Workspace::new();
    assert_eq!(workspace.num_files(), 0);
    workspace.add_parsed_source(parse("a.firm", CONTACT_SCHEMA));
    workspace.add_parsed_source(parse("b.firm", "contact jane {\n    name = \"Jane\"\n}\n"));
    assert_eq!(workspace.num_files(), 2);
    workspace.add_parsed_source(parse("a.firm", INVOICE_SCHEMA));
    assert_eq!(workspace.num_files(), 2);
    let paths: Vec<&str> = workspace.file_paths().iter().map(|p| p.as_str()).collect();
    assert_eq!(paths, vec!["a.firm", "b.firm"]);
    assert_eq!(workspace.find_schema_source("invoice"), Some("a.firm".to_string()));
    assert_eq!(workspace.find_schema_source("contact"), None);
    assert_eq!(workspace.parsed_sources().len(), 2);
}

#[test]
fn finds_entity_and_schema_sources() {
    let workspace = workspace_from_sources(&[
        ("schemas.firm", CONTACT_SCHEMA),
        ("people/jane.firm", "contact jane_doe {\n    name = \"Jane\"\n}\n"),
    ]);
    assert_eq!(workspace.find_entity_source("contact", "jane_doe"), Some("people/jane.firm".to_string()));
    assert_eq!(workspace.find_entity_source("contact", "john_doe"), None);
    assert_eq!(workspace.find_entity_source("project", "jane_doe"), None);
    assert_eq!(workspace.find_schema_source("contact"), Some("schemas.firm".to_string()));
    assert_eq!(workspace.find_schema_source("project"), None);
}

#[test]
fn default_workspace_is_empty() {
    let workspace = Workspace::default();
    assert_eq!(workspace.num_files(), 0);
    assert!(workspace.file_paths().is_empty());
}

// ---------------------------------------------------------------------------
// The check command.

#[test]
fn check_reports_syntax_errors_before_workspace_diagnostics() {
    let src = "contact";
    let mut broken = node(src, "source_file", 0, 7, vec![]);
    broken.is_error = true;
    broken.has_error = true;
    let mut workspace = Workspace::new();
    workspace.add_parsed_source(ParsedSource::new(broken, src.to_string(), "bad.firm".to_string()).unwrap());
    workspace.add_parsed_source(parse("contacts.firm", "contact jane {\n    name = \"Jane\"\n}\n"));
    let facts = default_facts(&workspace);
    let report = check(&workspace, &facts, None);
    let messages: Vec<&str> = report.diagnostics.iter().map(|d| d.message.as_str()).collect();
    assert_eq!(messages, vec!["Syntax error"]);
    assert_eq!(report.result, Err(CliError::BuildError));
}

#[test]
fn check_runs_workspace_diagnostics_when_syntax_is_clean() {
    let workspace = workspace_from_sources(&[("contacts.firm", "contact jane {\n    name = \"Jane\"\n}\n")]);
    let facts = default_facts(&workspace);
    let report = check(&workspace, &facts, None);
    assert_eq!(report.diagnostics.len(), 1);
    assert_eq!(report.diagnostics[0].message, "No schema defined for entity type 'contact'");
    assert_eq!(summary_message(report.diagnostics.len()), "\nFound 1 error(s)");
}

#[test]
fn check_of_a_clean_file_succeeds() {
    let workspace = Workspace::new();
    let parsed = parse("one.firm", "contact jane {\n    name = \"Jane\"\n}\n");
    let report = check(&workspace, &vec![], Some(&parsed));
    assert!(report.diagnostics.is_empty());
    assert_eq!(report.result, Ok(()));
    assert_eq!(summary_message(0), "No errors found");
    assert_eq!(report_diagnostics(&report.diagnostics), Ok(()));
}

#[test]
fn adding_a_file_twice_is_like_adding_it_once() {
    let mut workspace = Workspace::new();
    workspace.add_parsed_source(parse("a.firm", CONTACT_SCHEMA));
    workspace.add_parsed_source(parse("a.firm", CONTACT_SCHEMA));
    assert_eq!(workspace.num_files(), 1);
    assert_eq!(workspace.find_schema_source("contact"), Some("a.firm".to_string()));
}

#[test]
fn entity_without_id_is_silent_at_workspace_level() {
    let src = "contact {\n    name = \"Jane\"\n}\n";
    let root = {
        let mut p = Parser { src, pos: 0 };
        let t = p.wrapped_ident("entity_type");
        let b = p.block();
        let end = b.end_byte;
        node(src, "source_file", 0, src.len(), vec![node(src, "entity_block", 0, end, vec![t, b])])
    };
    let mut workspace = Workspace::new();
    workspace.add_parsed_source(ParsedSource::new(root, src.to_string(), "c.firm".to_string()).unwrap());
    let facts = vec![SourceFacts {
        schemas: vec![],
        entities: vec![EntityFacts {
            values: vec![Ok(ParsedValue::EntityReference {
                entity_type: "contact".to_string(),
                entity_id: "ghost".to_string(),
            })],
            built: None,
            validation: Ok(()),
        }],
    }];
    assert!(diagnostics(&workspace, &facts).is_empty());
}

#[test]
fn references_check_the_entity_built_last() {
    let workspace = workspace_from_sources(&[
        ("schemas.firm", CONTACT_WITH_NICKNAME),
        (
            "contacts.firm",
            "contact jane {\n    name = \"Jane\"\n}\ncontact jane {\n    title = \"CTO\"\n}\ncontact john {\n    nickname = contact.jane.name\n}\n",
        ),
    ]);
    let facts = default_facts(&workspace);
    let diagnostics = diagnostics(&workspace, &facts);
    let messages: Vec<&str> = diagnostics.iter().map(|d| d.message.as_str()).collect();
    assert_eq!(messages, vec!["Entity 'contact.jane' has no field 'name'"]);
}

#[test]
fn repeated_adds_hold_one_file_per_distinct_path() {
    let source = "contact x {\n    name = \"X\"\n}\n";
    let mut workspace = Workspace::new();
    for path in ["a.firm", "b.firm", "a.firm", "c.firm", "b.firm", "a.firm"] {
        workspace.add_parsed_source(parse(path, source));
    }
    assert_eq!(workspace.num_files(), 3);
    assert_eq!(workspace.file_paths().len(), 3);
    assert_eq!(workspace.parsed_sources().len(), 3);
    let mut paths: Vec<String> = workspace.file_paths().iter().map(|p| p.to_string()).collect();
    paths.sort();
    assert_eq!(paths, vec!["a.firm", "b.firm", "c.firm"]);
}

#[test]
fn built_entity_under_another_id_does_not_fit() {
    let workspace = workspace_from_sources(&[(
        "contacts.firm",
        "contact john_doe {\n    name = \"John Doe\"\n}\n",
    )]);
    let mut facts = default_facts(&workspace);
    assert!(facts_fit_workspace(&workspace, &facts));
    facts[0].entities[0].built.as_mut().unwrap().id = String::from("contact.jane_doe");
    assert!(!facts_fit_workspace(&workspace, &facts));
    facts[0].entities[0].built.as_mut().unwrap().id = String::from("contactjohn_doe");
    assert!(!facts_fit_workspace(&workspace, &facts));
    facts[0].entities[0].built = None;
    assert!(facts_fit_workspace(&workspace, &facts));
}
