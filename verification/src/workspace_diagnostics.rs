//! Workspace-level diagnostics: value parse errors, schema validation,
//! missing schemas, and broken references.
//!
//! Converting schema and entity blocks, parsing field values and validating
//! an entity against its schema are work of the Firm core model; their
//! outcomes come in as [`SourceFacts`], one per file, in workspace order.
//! This module decides what is reported and where.

use vstd::prelude::*;

use vstd::string::StringSliceAdditionalSpecFns;
use vstd::utf8::{decode_utf8, encode_utf8, encode_utf8_decode_utf8};

use crate::diagnostics::{
    error_at, node_span, views, Diagnostic, DiagnosticSeverity, DiagnosticView, SourceSpan,
    SpanView,
};
use crate::parsed::{entity_field_nodes, entity_nodes, schema_nodes, ParsedEntity, ParsedField, ParsedSource};
use crate::syntax_tree::{child_text, first_child_of_kind, str_eq, SyntaxNode};
use crate::text::eq_range;
use crate::workspace::Workspace;

verus! {

/// A field value as far as references are concerned.
#[derive(Debug)]
pub enum ParsedValue {
    /// A reference to an entity: `type.id`.
    EntityReference { entity_type: String, entity_id: String },
    /// A reference to a field of an entity: `type.id.field`.
    FieldReference { entity_type: String, entity_id: String, field_id: String },
    /// A list of values.
    List(Vec<ParsedValue>),
    /// Any other value.
    Other,
}

/// The composite ID of an entity: its type, a dot, and its ID.
pub open spec fn composite_id(entity_type: Seq<char>, entity_id: Seq<char>) -> Seq<char> {
    entity_type + "."@ + entity_id
}

/// Composes the ID of an entity from its type and its ID.
pub fn compose_entity_id(entity_type: &str, entity_id: &str) -> (r: String)
    ensures
        r@ == composite_id(entity_type@, entity_id@),
{
    let mut r = String::from_str(entity_type);
    r.append(".");
    r.append(entity_id);
    r
}

/// A reference waiting to be checked against the known entities.
pub struct PendingReference {
    /// The composite ID of the referenced entity (e.g. "contact.john_doe").
    pub target_entity_id: String,
    /// For field references, the field ID being referenced.
    pub target_field_id: Option<String>,
    /// Source span pointing at the reference value node.
    pub span: SourceSpan,
}

/// The mathematical value of a [`PendingReference`].
pub struct ReferenceView {
    pub target: Seq<char>,
    pub field: Option<Seq<char>>,
    pub span: SpanView,
}

pub open spec fn opt_view(o: Option<String>) -> Option<Seq<char>> {
    match o {
        Some(s) => Some(s@),
        None => None,
    }
}

impl View for PendingReference {
    type V = ReferenceView;

    open spec fn view(&self) -> ReferenceView {
        ReferenceView {
            target: self.target_entity_id@,
            field: opt_view(self.target_field_id),
            span: self.span@,
        }
    }
}

pub open spec fn reference_views(rs: Seq<PendingReference>) -> Seq<ReferenceView> {
    rs.map_values(|r: PendingReference| r@)
}

/// The references a value holds, in order, each pointing at `span`.
pub open spec fn value_references(v: ParsedValue, span: SpanView) -> Seq<ReferenceView>
    decreases v, 0int,
{
    match v {
        ParsedValue::EntityReference { entity_type, entity_id } => seq![
            ReferenceView { target: composite_id(entity_type@, entity_id@), field: None, span },
        ],
        ParsedValue::FieldReference { entity_type, entity_id, field_id } => seq![
            ReferenceView {
                target: composite_id(entity_type@, entity_id@),
                field: Some(field_id@),
                span,
            },
        ],
        ParsedValue::List(items) => list_references(items, items@.len() as int, span),
        ParsedValue::Other => seq![],
    }
}

/// The references the first `k` items of a list hold, in order.
pub open spec fn list_references(items: Vec<ParsedValue>, k: int, span: SpanView) -> Seq<
    ReferenceView,
>
    decreases items, k,
{
    if k <= 0 || k > items@.len() {
        seq![]
    } else {
        list_references(items, k - 1, span) + value_references(items@[k - 1], span)
    }
}

/// Extract reference values from a parsed value and register them for checking.
fn collect_references_from_value(
    value: &ParsedValue,
    span: &SourceSpan,
    pending_references: &mut Vec<PendingReference>,
)
    ensures
        reference_views(final(pending_references)@) == reference_views(old(pending_references)@)
            + value_references(*value, span@),
    decreases value, 0int,
{
    match value {
        ParsedValue::EntityReference { entity_type, entity_id } => {
            let composite = compose_entity_id(entity_type.as_str(), entity_id.as_str());
            pending_references.push(
                PendingReference {
                    target_entity_id: composite,
                    target_field_id: None,
                    span: span.duplicate(),
                },
            );
        },
        ParsedValue::FieldReference { entity_type, entity_id, field_id } => {
            let composite = compose_entity_id(entity_type.as_str(), entity_id.as_str());
            pending_references.push(
                PendingReference {
                    target_entity_id: composite,
                    target_field_id: Some(field_id.clone()),
                    span: span.duplicate(),
                },
            );
        },
        ParsedValue::List(items) => {
            let mut i: usize = 0;
            proof {
                assert(reference_views(pending_references@) =~= reference_views(
                    old(pending_references)@,
                ) + list_references(*items, 0, span@));
            }
            while i < items.len()
                invariant
                    *value == ParsedValue::List(*items),
                    i <= items@.len(),
                    reference_views(pending_references@) == reference_views(
                        old(pending_references)@,
                    ) + list_references(*items, i as int, span@),
                decreases items@.len() - i,
            {
                proof {
                    assert(decreases_to!(value->List_0 => value->List_0@));
                    assert(decreases_to!(value->List_0@ => value->List_0@[i as int]));
                }
                collect_references_from_value(&items[i], span, pending_references);
                proof {
                    assert(reference_views(pending_references@) =~= reference_views(
                        old(pending_references)@,
                    ) + list_references(*items, i + 1, span@));
                }
                i = i + 1;
            }
        },
        ParsedValue::Other => {},
    }
    proof {
        assert(reference_views(final(pending_references)@) =~= reference_views(
            old(pending_references)@,
        ) + value_references(*value, span@));
    }
}

/// The kind of a schema validation error, as far as placing it goes.
#[derive(Debug, Clone, Copy, PartialEq, Eq, Structural)]
pub enum ValidationErrorKind {
    /// A field's value has another type than the schema's.
    MismatchedFieldType,
    /// An enum field's value is not among the allowed values.
    InvalidEnumValue,
    /// A required field is missing.
    MissingRequiredField,
    /// Any other validation error.
    Other,
}

/// A validation error of an entity against its schema.
#[derive(Debug)]
pub struct ValidationIssue {
    pub message: String,
    /// The field the error concerns, if any.
    pub field: Option<String>,
    pub kind: ValidationErrorKind,
}

/// An entity as built from its block: its composite ID and its field IDs.
#[derive(Debug)]
pub struct BuiltEntity {
    pub id: String,
    pub field_ids: Vec<String>,
}

/// What the core model made of one entity block.
#[derive(Debug)]
pub struct EntityFacts {
    /// For each field of the block, in order: its parsed value, or the
    /// message of the error that parsing it gave.
    pub values: Vec<Result<ParsedValue, String>>,
    /// The entity built from the block, or `None` when building failed.
    pub built: Option<BuiltEntity>,
    /// The outcome of validating the built entity against the schema of its
    /// type, when there is one.
    pub validation: Result<(), Vec<ValidationIssue>>,
}

/// What the core model made of one file.
#[derive(Debug)]
pub struct SourceFacts {
    /// For each schema block, in order: the entity type of the schema built
    /// from it, or the message of the error that building it gave.
    pub schemas: Vec<Result<String, String>>,
    /// For each entity block, in order.
    pub entities: Vec<EntityFacts>,
}

/// An entity built from a block that names an entity type and an ID
/// carries the block's composite ID `type.id`.
pub open spec fn built_id_fits(e: SyntaxNode, bytes: Seq<u8>, facts: EntityFacts) -> bool {
    match facts.built {
        Some(b) => match (child_text(e, "entity_type"@, bytes), child_text(e, "entity_id"@, bytes)) {
            (Some(t), Some(id)) => encode_utf8(b.id@) == t + seq![46u8] + id,
            _ => true,
        },
        None => true,
    }
}

/// The facts describe an entity block: one value per field, and an entity
/// built under the block's composite ID.
pub open spec fn entity_facts_fit(e: SyntaxNode, bytes: Seq<u8>, facts: EntityFacts) -> bool {
    &&& facts.values@.len() == entity_field_nodes(e).len()
    &&& built_id_fits(e, bytes, facts)
}

/// The facts describe the workspace's files: one per file, one schema
/// outcome per schema block, and one entity record per entity block that
/// describes it (see [`entity_facts_fit`]).
pub open spec fn facts_fit(ws: Seq<ParsedSource>, facts: Seq<SourceFacts>) -> bool {
    &&& facts.len() == ws.len()
    &&& forall|i: int|
        0 <= i < ws.len() ==> {
            &&& (#[trigger] facts[i]).schemas@.len() == schema_nodes(ws[i].tree()).len()
            &&& facts[i].entities@.len() == entity_nodes(ws[i].tree()).len()
            &&& forall|j: int|
                0 <= j < facts[i].entities@.len() ==> entity_facts_fit(
                    entity_nodes(ws[i].tree())[j],
                    ws[i].bytes(),
                    #[trigger] facts[i].entities@[j],
                )
        }
}

/// Whether `whole` reads `t`, a dot, then `id`.
fn is_composite(whole: &str, t: &str, id: &str) -> (r: bool)
    ensures
        r == (whole.spec_bytes() == t.spec_bytes() + seq![46u8] + id.spec_bytes()),
{
    let x = whole.as_bytes();
    let a = t.as_bytes();
    let b = id.as_bytes();
    let ghost target = a@ + seq![46u8] + b@;
    let n = a.len();
    if x.len() <= n || x.len() - n - 1 != b.len() {
        proof {
            assert(x@.len() != target.len());
        }
        return false;
    }
    let r = eq_range(a, x, 0, n) && x[n] == 46u8 && eq_range(b, x, n + 1, x.len());
    proof {
        if r {
            assert(x@ =~= target);
        } else if x@ == target {
            assert(x@.subrange(0, n as int) =~= a@);
            assert(x@[n as int] == target[n as int]);
            assert(x@.subrange(n + 1, x@.len() as int) =~= b@);
        }
    }
    r
}

/// Whether an entity record describes its block (see [`entity_facts_fit`]).
fn entity_facts_fit_check(e: &ParsedEntity, facts: &EntityFacts) -> (r: bool)
    ensures
        r == entity_facts_fit(e.spec_node(), e.spec_bytes(), *facts),
{
    let fields = e.fields();
    proof {
        assert(fields@.map_values(|f: ParsedField| f.spec_node()).len() == fields@.len());
    }
    if facts.values.len() != fields.len() {
        return false;
    }
    match &facts.built {
        Some(b) => match (e.entity_type(), e.id()) {
            (Some(t), Some(id)) => is_composite(b.id.as_str(), t, id),
            _ => true,
        },
        None => true,
    }
}

/// The span of a field's value node, or of the field when it has none.
pub open spec fn field_value_span(f: SyntaxNode, file: Seq<char>) -> SpanView {
    match first_child_of_kind(f, "value"@) {
        Some(v) => node_span(v, file),
        None => node_span(f, file),
    }
}

/// The diagnostics for the values of the first `k` fields that failed to parse.
pub open spec fn value_errors(
    fields: Seq<SyntaxNode>,
    values: Seq<Result<ParsedValue, String>>,
    file: Seq<char>,
    k: int,
) -> Seq<DiagnosticView>
    decreases k,
{
    if k <= 0 {
        seq![]
    } else {
        value_errors(fields, values, file, k - 1) + match values[k - 1] {
            Err(m) => seq![error_at(m@, field_value_span(fields[k - 1], file))],
            Ok(_) => seq![],
        }
    }
}

/// The references held by the values of the first `k` fields that parsed.
pub open spec fn field_references(
    fields: Seq<SyntaxNode>,
    values: Seq<Result<ParsedValue, String>>,
    file: Seq<char>,
    k: int,
) -> Seq<ReferenceView>
    decreases k,
{
    if k <= 0 {
        seq![]
    } else {
        field_references(fields, values, file, k - 1) + match values[k - 1] {
            Ok(v) => value_references(v, field_value_span(fields[k - 1], file)),
            Err(_) => seq![],
        }
    }
}

/// The index of the first field at or after `i` whose name reads `name`.
pub open spec fn find_field_named(fields: Seq<SyntaxNode>, name: Seq<u8>, bytes: Seq<u8>, i: int) -> Option<int>
    decreases fields.len() - i,
{
    if i < 0 || i >= fields.len() {
        None
    } else if child_text(fields[i], "field_name"@, bytes) == Some(name) {
        Some(i)
    } else {
        find_field_named(fields, name, bytes, i + 1)
    }
}

pub proof fn lemma_find_field_named(fields: Seq<SyntaxNode>, name: Seq<u8>, bytes: Seq<u8>, i: int)
    requires
        0 <= i,
    ensures
        find_field_named(fields, name, bytes, i) matches Some(j) ==> i <= j < fields.len()
            && child_text(fields[j], "field_name"@, bytes) == Some(name),
    decreases fields.len() - i,
{
    if 0 <= i < fields.len() && child_text(fields[i], "field_name"@, bytes) != Some(name) {
        lemma_find_field_named(fields, name, bytes, i + 1);
    }
}

/// Where a validation error is reported: at the value of the field it
/// concerns for type and enum errors, at the field for other errors, and at
/// the entity when it concerns no field or a field the block does not hold.
pub open spec fn issue_span(
    issue: ValidationIssue,
    fields: Seq<SyntaxNode>,
    entity: SyntaxNode,
    bytes: Seq<u8>,
    file: Seq<char>,
) -> SpanView {
    match issue.field {
        Some(fid) => match find_field_named(fields, encode_utf8(fid@), bytes, 0) {
            Some(k) => if issue.kind is MismatchedFieldType || issue.kind is InvalidEnumValue {
                field_value_span(fields[k], file)
            } else {
                node_span(fields[k], file)
            },
            None => node_span(entity, file),
        },
        None => node_span(entity, file),
    }
}

/// An entity block with what the core model made of it.
pub struct EntityContext {
    pub node: SyntaxNode,
    pub facts: EntityFacts,
    pub bytes: Seq<u8>,
    pub file: Seq<char>,
}

/// The block names both an entity type and an ID.
pub open spec fn has_type_and_id(c: EntityContext) -> bool {
    &&& child_text(c.node, "entity_type"@, c.bytes) is Some
    &&& child_text(c.node, "entity_id"@, c.bytes) is Some
}

/// Some schema was built for the type that reads `t`.
pub open spec fn type_defined(types: Seq<String>, t: Seq<u8>) -> bool {
    exists|k: int| 0 <= k < types.len() && encode_utf8(#[trigger] types[k]@) == t
}

/// The diagnostics for the value errors of an entity block.
pub open spec fn entity_value_errors(c: EntityContext) -> Seq<DiagnosticView> {
    let fields = entity_field_nodes(c.node);
    value_errors(fields, c.facts.values@, c.file, fields.len() as int)
}

/// The diagnostics for one entity block: nothing when it lacks a type or an
/// ID; its value errors when it has any; otherwise nothing when it could
/// not be built, a missing-schema error when no schema was built for its
/// type, and else its validation errors.
pub open spec fn entity_diagnostics(c: EntityContext, types: Seq<String>) -> Seq<DiagnosticView> {
    let fields = entity_field_nodes(c.node);
    let ve = entity_value_errors(c);
    if !has_type_and_id(c) {
        seq![]
    } else if ve.len() > 0 {
        ve
    } else if c.facts.built is None {
        seq![]
    } else if !type_defined(types, child_text(c.node, "entity_type"@, c.bytes).unwrap()) {
        seq![
            error_at(
                "No schema defined for entity type '"@ + decode_utf8(
                    child_text(c.node, "entity_type"@, c.bytes).unwrap(),
                ) + "'"@,
                node_span(c.node, c.file),
            ),
        ]
    } else {
        match c.facts.validation {
            Ok(_) => seq![],
            Err(issues) => issues@.map_values(
                |iss: ValidationIssue|
                    error_at(iss.message@, issue_span(iss, fields, c.node, c.bytes, c.file)),
            ),
        }
    }
}

/// The references an entity block's values hold.
pub open spec fn entity_references(c: EntityContext) -> Seq<ReferenceView> {
    let fields = entity_field_nodes(c.node);
    if !has_type_and_id(c) {
        seq![]
    } else {
        field_references(fields, c.facts.values@, c.file, fields.len() as int)
    }
}

/// The entity an entity block contributes to reference checking: the built
/// entity, when the block has a type, an ID and no value errors.
pub open spec fn entity_built(c: EntityContext) -> Seq<BuiltEntity> {
    if !has_type_and_id(c) || entity_value_errors(c).len() > 0 {
        seq![]
    } else {
        match c.facts.built {
            Some(b) => seq![b],
            None => seq![],
        }
    }
}

/// The context of an entity block.
pub open spec fn context_of(e: ParsedEntity, facts: EntityFacts) -> EntityContext {
    EntityContext { node: e.spec_node(), facts, bytes: e.spec_bytes(), file: e.spec_file() }
}

/// The span of a field's value node, or of the field when it has none.
fn value_or_field_span(field: &ParsedField) -> (s: SourceSpan)
    ensures
        s@ == field_value_span(field.spec_node(), field.spec_file()),
{
    match field.value_node() {
        Some(n) => SourceSpan::from_node(n, field.path()),
        None => SourceSpan::from_node(field.node(), field.path()),
    }
}

/// Check a single field's value. Returns Ok if the value parsed, or Err with
/// a diagnostic if it failed. Also collects reference values for later
/// checking.
fn check_field_value(
    field: &ParsedField,
    value: &Result<ParsedValue, String>,
    pending_references: &mut Vec<PendingReference>,
) -> (r: Result<(), Diagnostic>)
    ensures
        match value {
            Ok(v) => r is Ok && reference_views(final(pending_references)@) == reference_views(
                old(pending_references)@,
            ) + value_references(*v, field_value_span(field.spec_node(), field.spec_file())),
            Err(m) => final(pending_references)@ == old(pending_references)@ && (r matches Err(d)
                && d@ == error_at(m@, field_value_span(field.spec_node(), field.spec_file()))),
        },
{
    match value {
        Ok(v) => {
            let span = value_or_field_span(field);
            collect_references_from_value(v, &span, pending_references);
            Ok(())
        },
        Err(m) => {
            let span = value_or_field_span(field);
            Err(Diagnostic { message: m.clone(), severity: DiagnosticSeverity::Error, span })
        },
    }
}

/// Find a parsed field within a list of fields by its field name.
fn find_parsed_field<'b, 'a>(
    fields: &'b Vec<ParsedField<'a>>,
    field_name: &str,
    Ghost(bytes): Ghost<Seq<u8>>,
) -> (r: Option<&'b ParsedField<'a>>)
    requires
        forall|i: int| 0 <= i < fields@.len() ==> (#[trigger] fields@[i]).spec_bytes() == bytes,
    ensures
        ({
            let found = find_field_named(
                fields@.map_values(|f: ParsedField| f.spec_node()),
                field_name.spec_bytes(),
                bytes,
                0,
            );
            match r {
                Some(f) => found matches Some(k) && *f == fields@[k],
                None => found is None,
            }
        }),
{
    let ghost nodes = fields@.map_values(|f: ParsedField| f.spec_node());
    let mut i: usize = 0;
    while i < fields.len()
        invariant
            i <= fields@.len(),
            nodes == fields@.map_values(|f: ParsedField| f.spec_node()),
            forall|j: int| 0 <= j < fields@.len() ==> (#[trigger] fields@[j]).spec_bytes() == bytes,
            find_field_named(nodes, field_name.spec_bytes(), bytes, 0) == find_field_named(
                nodes,
                field_name.spec_bytes(),
                bytes,
                i as int,
            ),
        decreases fields@.len() - i,
    {
        let name = fields[i].id();
        let is_match = match name {
            Some(t) => str_eq(t, field_name),
            None => false,
        };
        proof {
            assert(nodes[i as int] == fields@[i as int].spec_node());
        }
        if is_match {
            return Some(&fields[i]);
        }
        i = i + 1;
    }
    None
}

/// Whether a schema was built for the type that reads `t`.
fn schema_type_defined(schema_types: &Vec<String>, t: &str) -> (r: bool)
    ensures
        r == type_defined(schema_types@, t.spec_bytes()),
{
    let mut k: usize = 0;
    while k < schema_types.len()
        invariant
            k <= schema_types@.len(),
            forall|j: int| 0 <= j < k ==> encode_utf8(#[trigger] schema_types@[j]@) != t.spec_bytes(),
        decreases schema_types@.len() - k,
    {
        if str_eq(schema_types[k].as_str(), t) {
            return true;
        }
        k = k + 1;
    }
    false
}

/// Where a validation error is reported.
fn issue_location(
    issue: &ValidationIssue,
    fields: &Vec<ParsedField>,
    entity: &ParsedEntity,
    Ghost(bytes): Ghost<Seq<u8>>,
) -> (s: SourceSpan)
    requires
        bytes == entity.spec_bytes(),
        forall|i: int|
            0 <= i < fields@.len() ==> (#[trigger] fields@[i]).spec_bytes() == bytes
                && fields@[i].spec_file() == entity.spec_file(),
    ensures
        s@ == issue_span(
            *issue,
            fields@.map_values(|f: ParsedField| f.spec_node()),
            entity.spec_node(),
            bytes,
            entity.spec_file(),
        ),
{
    let ghost nodes = fields@.map_values(|f: ParsedField| f.spec_node());
    match &issue.field {
        Some(fid) => match find_parsed_field(fields, fid.as_str(), Ghost(bytes)) {
            Some(f) => {
                proof {
                    lemma_find_field_named(nodes, encode_utf8(fid@), bytes, 0);
                    let k = find_field_named(nodes, encode_utf8(fid@), bytes, 0).unwrap();
                    assert(nodes[k] == fields@[k].spec_node());
                }
                match issue.kind {
                    ValidationErrorKind::MismatchedFieldType
                    | ValidationErrorKind::InvalidEnumValue => value_or_field_span(f),
                    _ => SourceSpan::from_node(f.node(), entity.path()),
                }
            },
            None => SourceSpan::from_node(entity.node(), entity.path()),
        },
        None => SourceSpan::from_node(entity.node(), entity.path()),
    }
}

/// Process a single entity: check its values, validate it against its
/// schema, and collect its references and its built entity.
fn process_entity<'b>(
    parsed_entity: &ParsedEntity,
    facts: &'b EntityFacts,
    schema_types: &Vec<String>,
    built_entities: &mut Vec<&'b BuiltEntity>,
    pending_references: &mut Vec<PendingReference>,
    diagnostics: &mut Vec<Diagnostic>,
)
    requires
        facts.values@.len() == entity_field_nodes(parsed_entity.spec_node()).len(),
    ensures
        views(final(diagnostics)@) == views(old(diagnostics)@) + entity_diagnostics(
            context_of(*parsed_entity, *facts),
            schema_types@,
        ),
        reference_views(final(pending_references)@) == reference_views(old(pending_references)@)
            + entity_references(context_of(*parsed_entity, *facts)),
        final(built_entities)@.map_values(|b: &BuiltEntity| *b) == old(built_entities)@.map_values(
            |b: &BuiltEntity| *b,
        ) + entity_built(context_of(*parsed_entity, *facts)),
{
    let ghost c = context_of(*parsed_entity, *facts);
    let ghost old_built = built_entities@.map_values(|b: &BuiltEntity| *b);
    let entity_type_str = match parsed_entity.entity_type() {
        Some(t) => t,
        None => {
            proof {
                assert(views(diagnostics@) =~= views(old(diagnostics)@) + entity_diagnostics(c, schema_types@));
                assert(reference_views(pending_references@) =~= reference_views(old(pending_references)@) + entity_references(c));
                assert(built_entities@.map_values(|b: &BuiltEntity| *b) =~= old_built + entity_built(c));
            }
            return ;
        },
    };
    if parsed_entity.id().is_none() {
        proof {
            assert(views(diagnostics@) =~= views(old(diagnostics)@) + entity_diagnostics(c, schema_types@));
            assert(reference_views(pending_references@) =~= reference_views(old(pending_references)@) + entity_references(c));
            assert(built_entities@.map_values(|b: &BuiltEntity| *b) =~= old_built + entity_built(c));
        }
        return ;
    }
    let fields = parsed_entity.fields();
    let ghost nodes = entity_field_nodes(c.node);
    let ghost values = facts.values@;
    let mut has_value_errors = false;
    let mut k: usize = 0;
    proof {
        assert(views(diagnostics@) =~= views(old(diagnostics)@) + value_errors(nodes, values, c.file, 0));
        assert(reference_views(pending_references@) =~= reference_views(old(pending_references)@) + field_references(nodes, values, c.file, 0));
    }
    while k < fields.len()
        invariant
            k <= fields@.len(),
            values == facts.values@,
            nodes == entity_field_nodes(c.node),
            fields@.map_values(|f: ParsedField| f.spec_node()) == nodes,
            values.len() == nodes.len(),
            forall|i: int|
                0 <= i < fields@.len() ==> (#[trigger] fields@[i]).spec_text() == parsed_entity.spec_text()
                    && fields@[i].spec_file() == parsed_entity.spec_file(),
            c == context_of(*parsed_entity, *facts),
            views(diagnostics@) == views(old(diagnostics)@) + value_errors(nodes, values, c.file, k as int),
            reference_views(pending_references@) == reference_views(old(pending_references)@)
                + field_references(nodes, values, c.file, k as int),
            has_value_errors == (value_errors(nodes, values, c.file, k as int).len() > 0),
        decreases fields@.len() - k,
    {
        proof {
            assert(nodes[k as int] == fields@[k as int].spec_node());
        }
        let ghost before = diagnostics@;
        match check_field_value(&fields[k], &facts.values[k], pending_references) {
            Ok(()) => {},
            Err(diag) => {
                has_value_errors = true;
                diagnostics.push(diag);
                proof {
                    assert(views(diagnostics@) =~= views(before).push(diag@));
                }
            },
        }
        proof {
            assert(views(diagnostics@) =~= views(old(diagnostics)@) + value_errors(nodes, values, c.file, k + 1));
            assert(reference_views(pending_references@) =~= reference_views(old(pending_references)@) + field_references(nodes, values, c.file, k + 1));
        }
        k = k + 1;
    }
    proof {
        assert(fields@.len() == nodes.len());
    }
    if has_value_errors {
        proof {
            assert(built_entities@.map_values(|b: &BuiltEntity| *b) =~= old_built + entity_built(c));
        }
        return ;
    }
    let built = match &facts.built {
        Some(b) => b,
        None => {
            proof {
                assert(views(diagnostics@) =~= views(old(diagnostics)@) + entity_diagnostics(c, schema_types@));
                assert(built_entities@.map_values(|b: &BuiltEntity| *b) =~= old_built + entity_built(c));
            }
            return ;
        },
    };
    built_entities.push(built);
    proof {
        assert(built_entities@.map_values(|b: &BuiltEntity| *b) =~= old_built + entity_built(c));
    }
    if !schema_type_defined(schema_types, entity_type_str) {
        let mut message = String::from_str("No schema defined for entity type '");
        message.append(entity_type_str);
        message.append("'");
        let d = Diagnostic {
            message,
            severity: DiagnosticSeverity::Error,
            span: SourceSpan::from_node(parsed_entity.node(), parsed_entity.path()),
        };
        diagnostics.push(d);
        proof {
            encode_utf8_decode_utf8(entity_type_str@);
            assert(views(diagnostics@) =~= views(old(diagnostics)@) + entity_diagnostics(c, schema_types@));
        }
        return ;
    }
    match &facts.validation {
        Ok(()) => {
            proof {
                assert(views(diagnostics@) =~= views(old(diagnostics)@) + entity_diagnostics(c, schema_types@));
            }
        },
        Err(issues) => {
            let ghost spec_issue = |iss: ValidationIssue|
                error_at(iss.message@, issue_span(iss, nodes, c.node, c.bytes, c.file));
            let mut i: usize = 0;
            while i < issues.len()
                invariant
                    i <= issues@.len(),
                    spec_issue == (|iss: ValidationIssue|
                        error_at(iss.message@, issue_span(iss, nodes, c.node, c.bytes, c.file))),
                    c == context_of(*parsed_entity, *facts),
                    fields@.map_values(|f: ParsedField| f.spec_node()) == nodes,
                    forall|j: int|
                        0 <= j < fields@.len() ==> (#[trigger] fields@[j]).spec_text() == parsed_entity.spec_text()
                            && fields@[j].spec_file() == parsed_entity.spec_file(),
                    views(diagnostics@) == views(old(diagnostics)@) + issues@.take(i as int).map_values(spec_issue),
                decreases issues@.len() - i,
            {
                let issue = &issues[i];
                let span = issue_location(issue, &fields, parsed_entity, Ghost(c.bytes));
                let ghost before = diagnostics@;
                let d = Diagnostic {
                    message: issue.message.clone(),
                    severity: DiagnosticSeverity::Error,
                    span,
                };
                proof {
                    assert(d@ == spec_issue(issues@[i as int]));
                }
                diagnostics.push(d);
                proof {
                    assert(views(diagnostics@) =~= views(before).push(d@));
                    assert(issues@.take(i + 1) =~= issues@.take(i as int).push(issues@[i as int]));
                    assert(views(diagnostics@) =~= views(old(diagnostics)@) + issues@.take(i + 1).map_values(spec_issue));
                }
                i = i + 1;
            }
            proof {
                assert(issues@.take(issues@.len() as int) =~= issues@);
                assert(views(diagnostics@) =~= views(old(diagnostics)@) + entity_diagnostics(c, schema_types@));
            }
        },
    }
}

/// The diagnostics of a sequence of entity blocks, in order.
pub open spec fn diagnostics_of(ctxs: Seq<EntityContext>, types: Seq<String>) -> Seq<DiagnosticView>
    decreases ctxs.len(),
{
    if ctxs.len() == 0 {
        seq![]
    } else {
        diagnostics_of(ctxs.drop_last(), types) + entity_diagnostics(ctxs.last(), types)
    }
}

/// The references of a sequence of entity blocks, in order.
pub open spec fn references_of(ctxs: Seq<EntityContext>) -> Seq<ReferenceView>
    decreases ctxs.len(),
{
    if ctxs.len() == 0 {
        seq![]
    } else {
        references_of(ctxs.drop_last()) + entity_references(ctxs.last())
    }
}

/// The entities a sequence of entity blocks contributes, in order.
pub open spec fn builts_of(ctxs: Seq<EntityContext>) -> Seq<BuiltEntity>
    decreases ctxs.len(),
{
    if ctxs.len() == 0 {
        seq![]
    } else {
        builts_of(ctxs.drop_last()) + entity_built(ctxs.last())
    }
}

/// The entity blocks of a file with their facts.
pub open spec fn source_contexts(p: ParsedSource, sf: SourceFacts) -> Seq<EntityContext> {
    Seq::new(
        entity_nodes(p.tree()).len(),
        |j: int|
            EntityContext {
                node: entity_nodes(p.tree())[j],
                facts: sf.entities@[j],
                bytes: p.bytes(),
                file: p.file(),
            },
    )
}

/// The entity blocks of the first `i` files with their facts.
pub open spec fn contexts(ws: Seq<ParsedSource>, facts: Seq<SourceFacts>, i: int) -> Seq<EntityContext>
    decreases i,
{
    if i <= 0 {
        seq![]
    } else {
        contexts(ws, facts, i - 1) + source_contexts(ws[i - 1], facts[i - 1])
    }
}

/// The diagnostics for the first `k` schema blocks of a file that could not
/// be built.
pub open spec fn source_schema_diagnostics(p: ParsedSource, sf: SourceFacts, k: int) -> Seq<DiagnosticView>
    decreases k,
{
    if k <= 0 {
        seq![]
    } else {
        source_schema_diagnostics(p, sf, k - 1) + match sf.schemas@[k - 1] {
            Err(m) => seq![
                error_at("Invalid schema: "@ + m@, node_span(schema_nodes(p.tree())[k - 1], p.file())),
            ],
            Ok(_) => seq![],
        }
    }
}

/// The entity types of the schemas built from the first `k` schema blocks of a file.
pub open spec fn source_schema_types(sf: SourceFacts, k: int) -> Seq<String>
    decreases k,
{
    if k <= 0 {
        seq![]
    } else {
        source_schema_types(sf, k - 1) + match sf.schemas@[k - 1] {
            Ok(t) => seq![t],
            Err(_) => seq![],
        }
    }
}

/// The schema diagnostics of the first `i` files.
pub open spec fn schema_diagnostics(ws: Seq<ParsedSource>, facts: Seq<SourceFacts>, i: int) -> Seq<DiagnosticView>
    decreases i,
{
    if i <= 0 {
        seq![]
    } else {
        schema_diagnostics(ws, facts, i - 1) + source_schema_diagnostics(
            ws[i - 1],
            facts[i - 1],
            facts[i - 1].schemas@.len() as int,
        )
    }
}

/// The entity types of the schemas built from the first `i` files.
pub open spec fn built_schema_types(ws: Seq<ParsedSource>, facts: Seq<SourceFacts>, i: int) -> Seq<String>
    decreases i,
{
    if i <= 0 {
        seq![]
    } else {
        built_schema_types(ws, facts, i - 1) + source_schema_types(
            facts[i - 1],
            facts[i - 1].schemas@.len() as int,
        )
    }
}

/// The entity with composite ID `id` that was contributed last.
pub open spec fn last_built(builts: Seq<BuiltEntity>, id: Seq<char>) -> Option<BuiltEntity>
    decreases builts.len(),
{
    if builts.len() == 0 {
        None
    } else if builts.last().id@ == id {
        Some(builts.last())
    } else {
        last_built(builts.drop_last(), id)
    }
}

/// The entity has a field with ID `f`.
pub open spec fn has_field(b: BuiltEntity, f: Seq<char>) -> bool {
    exists|j: int| 0 <= j < b.field_ids@.len() && (#[trigger] b.field_ids@[j])@ == f
}

/// The diagnostic for a reference, if it is broken: its target entity is
/// unknown, or the entity lacks the referenced field.
pub open spec fn reference_diagnostic(r: ReferenceView, builts: Seq<BuiltEntity>) -> Seq<DiagnosticView> {
    match last_built(builts, r.target) {
        None => seq![error_at("Reference to unknown entity '"@ + r.target + "'"@, r.span)],
        Some(b) => match r.field {
            Some(f) => if has_field(b, f) {
                seq![]
            } else {
                seq![
                    error_at(
                        "Entity '"@ + r.target + "' has no field '"@ + f + "'"@,
                        r.span,
                    ),
                ]
            },
            None => seq![],
        },
    }
}

/// The diagnostics for the broken references among the first `k`.
pub open spec fn reference_diagnostics(refs: Seq<ReferenceView>, builts: Seq<BuiltEntity>, k: int) -> Seq<
    DiagnosticView,
>
    decreases k,
{
    if k <= 0 {
        seq![]
    } else {
        reference_diagnostics(refs, builts, k - 1) + reference_diagnostic(refs[k - 1], builts)
    }
}

/// The workspace diagnostics: those of the schema blocks, then those of the
/// entity blocks, then those of the broken references, each in workspace
/// order.
pub open spec fn workspace_diagnostics(ws: Seq<ParsedSource>, facts: Seq<SourceFacts>) -> Seq<DiagnosticView> {
    let n = ws.len() as int;
    let ctxs = contexts(ws, facts, n);
    let refs = references_of(ctxs);
    schema_diagnostics(ws, facts, n) + diagnostics_of(ctxs, built_schema_types(ws, facts, n))
        + reference_diagnostics(refs, builts_of(ctxs), refs.len() as int)
}

/// The entity contributed last with the given composite ID.
fn find_built<'b>(built_entities: &Vec<&'b BuiltEntity>, id: &String) -> (r: Option<&'b BuiltEntity>)
    ensures
        match r {
            Some(b) => last_built(built_entities@.map_values(|b: &BuiltEntity| *b), id@) == Some(*b),
            None => last_built(built_entities@.map_values(|b: &BuiltEntity| *b), id@) is None,
        },
{
    let ghost all = built_entities@.map_values(|b: &BuiltEntity| *b);
    let mut k = built_entities.len();
    proof {
        assert(all.take(k as int) =~= all);
    }
    while k > 0
        invariant
            k <= all.len(),
            all == built_entities@.map_values(|b: &BuiltEntity| *b),
            last_built(all, id@) == last_built(all.take(k as int), id@),
        decreases k,
    {
        proof {
            assert(all.take(k - 1) =~= all.take(k as int).drop_last());
        }
        if built_entities[k - 1].id == *id {
            return Some(built_entities[k - 1]);
        }
        k = k - 1;
    }
    None
}

/// Whether the entity has a field with the given ID.
fn entity_has_field(b: &BuiltEntity, field_id: &String) -> (r: bool)
    ensures
        r == has_field(*b, field_id@),
{
    let mut j: usize = 0;
    while j < b.field_ids.len()
        invariant
            j <= b.field_ids@.len(),
            forall|m: int| 0 <= m < j ==> (#[trigger] b.field_ids@[m])@ != field_id@,
        decreases b.field_ids@.len() - j,
    {
        if b.field_ids[j] == *field_id {
            return true;
        }
        j = j + 1;
    }
    false
}

/// Pass 3: Check all collected references against known entities and their fields.
fn check_references(
    pending_references: &Vec<PendingReference>,
    built_entities: &Vec<&BuiltEntity>,
    diagnostics: &mut Vec<Diagnostic>,
)
    ensures
        views(final(diagnostics)@) == views(old(diagnostics)@) + reference_diagnostics(
            reference_views(pending_references@),
            built_entities@.map_values(|b: &BuiltEntity| *b),
            pending_references@.len() as int,
        ),
{
    let ghost refs = reference_views(pending_references@);
    let ghost builts = built_entities@.map_values(|b: &BuiltEntity| *b);
    let mut i: usize = 0;
    while i < pending_references.len()
        invariant
            i <= pending_references@.len(),
            refs == reference_views(pending_references@),
            builts == built_entities@.map_values(|b: &BuiltEntity| *b),
            views(diagnostics@) == views(old(diagnostics)@) + reference_diagnostics(refs, builts, i as int),
        decreases pending_references@.len() - i,
    {
        let reference = &pending_references[i];
        let ghost before = diagnostics@;
        proof {
            assert(refs[i as int] == reference@);
        }
        match find_built(built_entities, &reference.target_entity_id) {
            None => {
                let mut message = String::from_str("Reference to unknown entity '");
                message.append(reference.target_entity_id.as_str());
                message.append("'");
                let d = Diagnostic {
                    message,
                    severity: DiagnosticSeverity::Error,
                    span: reference.span.duplicate(),
                };
                diagnostics.push(d);
                proof {
                    assert(views(diagnostics@) =~= views(before).push(d@));
                }
            },
            Some(entity) => {
                if let Some(field_id) = &reference.target_field_id {
                    if !entity_has_field(entity, field_id) {
                        let mut message = String::from_str("Entity '");
                        message.append(reference.target_entity_id.as_str());
                        message.append("' has no field '");
                        message.append(field_id.as_str());
                        message.append("'");
                        let d = Diagnostic {
                            message,
                            severity: DiagnosticSeverity::Error,
                            span: reference.span.duplicate(),
                        };
                        diagnostics.push(d);
                        proof {
                            assert(views(diagnostics@) =~= views(before).push(d@));
                        }
                    }
                }
            },
        }
        proof {
            assert(views(diagnostics@) =~= views(old(diagnostics)@) + reference_diagnostics(refs, builts, i + 1));
        }
        i = i + 1;
    }
}

/// Pass 1: record the entity types of the schemas that were built, and
/// report the schema blocks that could not be built.
fn collect_schemas(
    parsed_sources: &Vec<&ParsedSource>,
    facts: &Vec<SourceFacts>,
    Ghost(ws): Ghost<Seq<ParsedSource>>,
    diagnostics: &mut Vec<Diagnostic>,
) -> (types: Vec<String>)
    requires
        parsed_sources@.len() == ws.len(),
        forall|i: int| 0 <= i < ws.len() ==> *(#[trigger] parsed_sources@[i]) == ws[i],
        facts_fit(ws, facts@),
    ensures
        views(final(diagnostics)@) == views(old(diagnostics)@) + schema_diagnostics(
            ws,
            facts@,
            ws.len() as int,
        ),
        types@ == built_schema_types(ws, facts@, ws.len() as int),
{
    let mut schema_types: Vec<String> = Vec::new();
    let mut i: usize = 0;
    while i < parsed_sources.len()
        invariant
            i <= ws.len(),
            parsed_sources@.len() == ws.len(),
            forall|m: int| 0 <= m < ws.len() ==> *(#[trigger] parsed_sources@[m]) == ws[m],
            facts_fit(ws, facts@),
            views(diagnostics@) == views(old(diagnostics)@) + schema_diagnostics(ws, facts@, i as int),
            schema_types@ == built_schema_types(ws, facts@, i as int),
        decreases ws.len() - i,
    {
        let parsed_source = parsed_sources[i];
        let source_facts = &facts[i];
        let schemas = parsed_source.schemas();
        let ghost diags_before = views(diagnostics@);
        let ghost types_before = schema_types@;
        let ghost nodes = schema_nodes(ws[i as int].tree());
        proof {
            assert(facts@[i as int].schemas@.len() == nodes.len());
        }
        let mut k: usize = 0;
        while k < schemas.len()
            invariant
                k <= schemas@.len(),
                schemas@.map_values(|e: crate::parsed::ParsedSchema| e.spec_node()) == nodes,
                forall|m: int|
                    0 <= m < schemas@.len() ==> (#[trigger] schemas@[m]).spec_file() == ws[i as int].file(),
                *parsed_source == ws[i as int],
                source_facts == &facts@[i as int],
                source_facts.schemas@.len() == nodes.len(),
                nodes == schema_nodes(ws[i as int].tree()),
                views(diagnostics@) == diags_before + source_schema_diagnostics(
                    ws[i as int],
                    *source_facts,
                    k as int,
                ),
                schema_types@ == types_before + source_schema_types(*source_facts, k as int),
            decreases schemas@.len() - k,
        {
            let ghost before = diagnostics@;
            proof {
                assert(nodes[k as int] == schemas@[k as int].spec_node());
            }
            match &source_facts.schemas[k] {
                Ok(t) => {
                    schema_types.push(t.clone());
                },
                Err(err) => {
                    let mut message = String::from_str("Invalid schema: ");
                    message.append(err.as_str());
                    let d = Diagnostic {
                        message,
                        severity: DiagnosticSeverity::Error,
                        span: SourceSpan::from_node(schemas[k].node(), parsed_source.path()),
                    };
                    diagnostics.push(d);
                    proof {
                        assert(views(diagnostics@) =~= views(before).push(d@));
                    }
                },
            }
            proof {
                assert(views(diagnostics@) =~= diags_before + source_schema_diagnostics(
                    ws[i as int],
                    *source_facts,
                    k + 1,
                ));
                assert(schema_types@ =~= types_before + source_schema_types(*source_facts, k + 1));
            }
            k = k + 1;
        }
        proof {
            assert(views(diagnostics@) =~= views(old(diagnostics)@) + schema_diagnostics(ws, facts@, i + 1));
            assert(schema_types@ =~= built_schema_types(ws, facts@, i + 1));
        }
        i = i + 1;
    }
    schema_types
}

/// Collects workspace-level diagnostics from all loaded files.
///
/// Performs three passes:
/// 1. Record the schemas built from the schema blocks
/// 2. Check entity field values, run schema validation, collect references
/// 3. Validate references against known entity IDs
pub fn collect_workspace_diagnostics(workspace: &Workspace, facts: &Vec<SourceFacts>) -> (diagnostics:
    Vec<Diagnostic>)
    requires
        facts_fit(workspace@, facts@),
    ensures
        views(diagnostics@) == workspace_diagnostics(workspace@, facts@),
{
    let ghost ws = workspace@;
    let mut diagnostics: Vec<Diagnostic> = Vec::new();
    let parsed_sources = workspace.parsed_sources();

    // Pass 1: schemas
    let schema_types = collect_schemas(&parsed_sources, facts, Ghost(ws), &mut diagnostics);
    let ghost schema_part = views(diagnostics@);
    proof {
        assert(schema_part =~= schema_diagnostics(ws, facts@, ws.len() as int));
    }

    // Pass 2: entities
    let mut built_entities: Vec<&BuiltEntity> = Vec::new();
    let mut pending_references: Vec<PendingReference> = Vec::new();
    let mut i: usize = 0;
    proof {
        assert(diagnostics_of(contexts(ws, facts@, 0), schema_types@) =~= Seq::<DiagnosticView>::empty());
        assert(views(diagnostics@) =~= schema_part + diagnostics_of(contexts(ws, facts@, 0), schema_types@));
        assert(reference_views(pending_references@) =~= references_of(contexts(ws, facts@, 0)));
        assert(built_entities@.map_values(|b: &BuiltEntity| *b) =~= builts_of(contexts(ws, facts@, 0)));
    }
    while i < parsed_sources.len()
        invariant
            i <= ws.len(),
            parsed_sources@.len() == ws.len(),
            forall|m: int| 0 <= m < ws.len() ==> *(#[trigger] parsed_sources@[m]) == ws[m],
            facts_fit(ws, facts@),
            schema_types@ == built_schema_types(ws, facts@, ws.len() as int),
            views(diagnostics@) == schema_part + diagnostics_of(contexts(ws, facts@, i as int), schema_types@),
            reference_views(pending_references@) == references_of(contexts(ws, facts@, i as int)),
            built_entities@.map_values(|b: &BuiltEntity| *b) == builts_of(contexts(ws, facts@, i as int)),
        decreases ws.len() - i,
    {
        let parsed_source = parsed_sources[i];
        let source_facts = &facts[i];
        let entities = parsed_source.entities();
        let ghost done = contexts(ws, facts@, i as int);
        let ghost here = source_contexts(ws[i as int], facts@[i as int]);
        proof {
            assert(source_facts.entities@.len() == entities@.len());
        }
        let mut j: usize = 0;
        proof {
            assert(done + here.take(0) =~= done);
        }
        while j < entities.len()
            invariant
                j <= entities@.len(),
                entities@.map_values(|e: ParsedEntity| e.spec_node()) == entity_nodes(ws[i as int].tree()),
                forall|m: int|
                    0 <= m < entities@.len() ==> (#[trigger] entities@[m]).spec_text() == ws[i as int].text()
                        && entities@[m].spec_file() == ws[i as int].file(),
                source_facts == &facts@[i as int],
                source_facts.entities@.len() == entities@.len(),
                forall|m: int|
                    0 <= m < source_facts.entities@.len() ==> (#[trigger] source_facts.entities@[m]).values@.len()
                        == entity_field_nodes(entity_nodes(ws[i as int].tree())[m]).len(),
                here == source_contexts(ws[i as int], facts@[i as int]),
                views(diagnostics@) == schema_part + diagnostics_of(done + here.take(j as int), schema_types@),
                reference_views(pending_references@) == references_of(done + here.take(j as int)),
                built_entities@.map_values(|b: &BuiltEntity| *b) == builts_of(done + here.take(j as int)),
            decreases entities@.len() - j,
        {
            let ghost prev = done + here.take(j as int);
            proof {
                assert(entity_nodes(ws[i as int].tree())[j as int] == entities@[j as int].spec_node());
                assert(here[j as int] == context_of(entities@[j as int], source_facts.entities@[j as int]));
                assert(done + here.take(j + 1) =~= prev.push(here[j as int]));
                assert((prev.push(here[j as int])).drop_last() =~= prev);
            }
            process_entity(
                &entities[j],
                &source_facts.entities[j],
                &schema_types,
                &mut built_entities,
                &mut pending_references,
                &mut diagnostics,
            );
            proof {
                assert(views(diagnostics@) =~= schema_part + diagnostics_of(done + here.take(j + 1), schema_types@));
            }
            j = j + 1;
        }
        proof {
            assert(here.take(here.len() as int) =~= here);
            assert(contexts(ws, facts@, i + 1) == done + here);
        }
        i = i + 1;
    }

    // Pass 3: references
    check_references(&pending_references, &built_entities, &mut diagnostics);
    proof {
        assert(views(diagnostics@) =~= workspace_diagnostics(ws, facts@));
    }
    diagnostics
}

/// Whether the facts describe the workspace's files (see [`facts_fit`]).
pub fn facts_fit_workspace(workspace: &Workspace, facts: &Vec<SourceFacts>) -> (r: bool)
    ensures
        r == facts_fit(workspace@, facts@),
{
    let ghost ws = workspace@;
    let parsed_sources = workspace.parsed_sources();
    if parsed_sources.len() != facts.len() {
        return false;
    }
    let mut i: usize = 0;
    while i < parsed_sources.len()
        invariant
            ws == workspace@,
            i <= ws.len(),
            parsed_sources@.len() == ws.len(),
            facts@.len() == ws.len(),
            forall|m: int| 0 <= m < ws.len() ==> *(#[trigger] parsed_sources@[m]) == ws[m],
            forall|m: int|
                0 <= m < i ==> {
                    &&& (#[trigger] facts@[m]).schemas@.len() == schema_nodes(ws[m].tree()).len()
                    &&& facts@[m].entities@.len() == entity_nodes(ws[m].tree()).len()
                    &&& forall|j: int|
                        0 <= j < facts@[m].entities@.len() ==> entity_facts_fit(
                            entity_nodes(ws[m].tree())[j],
                            ws[m].bytes(),
                            #[trigger] facts@[m].entities@[j],
                        )
                },
        decreases ws.len() - i,
    {
        let parsed_source = parsed_sources[i];
        let source_facts = &facts[i];
        let schemas = parsed_source.schemas();
        let entities = parsed_source.entities();
        proof {
            assert(schemas@.map_values(|e: crate::parsed::ParsedSchema| e.spec_node()).len() == schemas@.len());
            assert(entities@.map_values(|e: ParsedEntity| e.spec_node()).len() == entities@.len());
        }
        if source_facts.schemas.len() != schemas.len() || source_facts.entities.len() != entities.len() {
            proof {
                assert(!(facts@[i as int].schemas@.len() == schema_nodes(ws[i as int].tree()).len()
                    && facts@[i as int].entities@.len() == entity_nodes(ws[i as int].tree()).len()));
            }
            return false;
        }
        let mut j: usize = 0;
        while j < entities.len()
            invariant
                ws == workspace@,
                i < ws.len(),
                facts@.len() == ws.len(),
                j <= entities@.len(),
                entities@.map_values(|e: ParsedEntity| e.spec_node()) == entity_nodes(ws[i as int].tree()),
                forall|m: int|
                    0 <= m < entities@.len() ==> (#[trigger] entities@[m]).spec_text() == ws[i as int].text(),
                source_facts == &facts@[i as int],
                source_facts.entities@.len() == entities@.len(),
                forall|m: int|
                    0 <= m < j ==> entity_facts_fit(
                        entity_nodes(ws[i as int].tree())[m],
                        ws[i as int].bytes(),
                        #[trigger] source_facts.entities@[m],
                    ),
            decreases entities@.len() - j,
        {
            proof {
                assert(entity_nodes(ws[i as int].tree())[j as int] == entities@[j as int].spec_node());
            }
            if !entity_facts_fit_check(&entities[j], &source_facts.entities[j]) {
                return false;
            }
            j = j + 1;
        }
        i = i + 1;
    }
    true
}

/// An entity block whose values do not all parse reports only its value
/// errors and takes no part in reference checking: its schema errors appear
/// once its values parse.
pub proof fn law_value_errors_hide_validation(c: EntityContext, types: Seq<String>)
    requires
        has_type_and_id(c),
        entity_value_errors(c).len() > 0,
    ensures
        entity_diagnostics(c, types) == entity_value_errors(c),
        entity_built(c).len() == 0,
{
}

/// A block without an entity type or an ID yields nothing at workspace
/// level: its syntax error is reported by the syntax check.
pub proof fn law_incomplete_block_is_silent(c: EntityContext, types: Seq<String>)
    requires
        !has_type_and_id(c),
    ensures
        entity_diagnostics(c, types).len() == 0,
        entity_references(c).len() == 0,
        entity_built(c).len() == 0,
{
}

/// References are checked against the entity contributed last under the
/// target ID: the one found has that ID and was contributed, and none is
/// found only when no entity has that ID.
pub proof fn law_last_built(builts: Seq<BuiltEntity>, id: Seq<char>)
    ensures
        last_built(builts, id) matches Some(b) ==> b.id@ == id && builts.contains(b),
        last_built(builts, id) is None ==> forall|i: int|
            0 <= i < builts.len() ==> (#[trigger] builts[i]).id@ != id,
    decreases builts.len(),
{
    if builts.len() > 0 {
        law_last_built(builts.drop_last(), id);
        if builts.last().id@ == id {
            assert(builts[builts.len() - 1] == builts.last());
        } else {
            if let Some(b) = last_built(builts.drop_last(), id) {
                let i = choose|i: int| 0 <= i < builts.drop_last().len() && builts.drop_last()[i] == b;
                assert(builts[i] == b);
            } else {
                assert forall|i: int| 0 <= i < builts.len() implies (#[trigger] builts[i]).id@ != id by {
                    if i < builts.len() - 1 {
                        assert(builts[i] == builts.drop_last()[i]);
                    }
                }
            }
        }
    }
}

/// A reference is reported, once, exactly when it is broken: no entity has
/// its target ID, or it names a field that entity lacks.
pub proof fn law_reference_reported_iff_broken(r: ReferenceView, builts: Seq<BuiltEntity>)
    ensures
        reference_diagnostic(r, builts).len() <= 1,
        (reference_diagnostic(r, builts).len() == 0) <==> (last_built(builts, r.target) matches Some(
            b,
        ) && (r.field matches Some(f) ==> has_field(b, f))),
{
}

/// Under facts that describe the workspace, the entity a block contributes
/// to reference checking carries the block's composite ID: its entity type,
/// a dot, then its ID.
pub proof fn law_contributed_entity_has_block_id(
    ws: Seq<ParsedSource>,
    facts: Seq<SourceFacts>,
    i: int,
    j: int,
)
    requires
        facts_fit(ws, facts),
        0 <= i < ws.len(),
        0 <= j < entity_nodes(ws[i].tree()).len(),
    ensures
        ({
            let c = source_contexts(ws[i], facts[i])[j];
            forall|k: int|
                0 <= k < entity_built(c).len() ==> encode_utf8((#[trigger] entity_built(c)[k]).id@)
                    == child_text(c.node, "entity_type"@, c.bytes).unwrap() + seq![46u8] + child_text(
                    c.node,
                    "entity_id"@,
                    c.bytes,
                ).unwrap()
        }),
{
    let c = source_contexts(ws[i], facts[i])[j];
    assert(c.facts == facts[i].entities@[j]);
    assert(entity_facts_fit(entity_nodes(ws[i].tree())[j], ws[i].bytes(), facts[i].entities@[j]));
}

/// A block with an entity type and an ID, whose values all parse, that was
/// built and whose type has a schema, gets one diagnostic per validation
/// issue, in order, each an error carrying the issue's message.
pub proof fn law_one_diagnostic_per_validation_issue(
    c: EntityContext,
    types: Seq<String>,
    issues: Vec<ValidationIssue>,
)
    requires
        has_type_and_id(c),
        entity_value_errors(c).len() == 0,
        c.facts.built is Some,
        type_defined(types, child_text(c.node, "entity_type"@, c.bytes).unwrap()),
        c.facts.validation == Err::<(), Vec<ValidationIssue>>(issues),
    ensures
        entity_diagnostics(c, types).len() == issues@.len(),
        forall|i: int|
            0 <= i < issues@.len() ==> (#[trigger] entity_diagnostics(c, types)[i]).message
                == issues@[i].message@ && entity_diagnostics(c, types)[i].severity
                == DiagnosticSeverity::Error,
{
}

} // verus!
