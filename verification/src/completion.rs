//! Completion item generation for editors: field names, references and
//! enum values.

use vstd::prelude::*;
use vstd::string::StringSliceAdditionalSpecFns;
use vstd::utf8::{
    decode_utf8, encode_utf8, encode_utf8_decode_utf8, encode_utf8_valid_utf8,
    is_char_boundary_start_end_of_seq,
};

use crate::diagnostics::{append_decimal, decimal};
use crate::syntax_tree::str_eq;
use crate::workspace_diagnostics::composite_id;
use crate::text::{
    eq_range, starts_with_range, bytes_lt, bytes_start_with, count_byte, count_bytes, find_byte, find_byte_from,
    lemma_ascii_boundaries, lemma_find_byte_from, lemma_lex_order, lex_le, lex_lt, starts_with,
    substring,
};

verus! {

broadcast use {vstd::seq_lib::group_seq_properties, vstd::seq_lib::to_multiset_insert, vstd::seq_lib::to_multiset_build};

/// The type a schema expects of a field, or the type of a field's value.
#[derive(Debug, Clone, Copy, PartialEq, Eq, Structural)]
pub enum FieldType {
    Boolean,
    String,
    Integer,
    Float,
    Currency,
    Reference,
    List,
    DateTime,
    Path,
    Enum,
}

/// The name a field type is shown under.
pub open spec fn field_type_name(t: FieldType) -> Seq<char> {
    match t {
        FieldType::Boolean => "Boolean"@,
        FieldType::String => "String"@,
        FieldType::Integer => "Integer"@,
        FieldType::Float => "Float"@,
        FieldType::Currency => "Currency"@,
        FieldType::Reference => "Reference"@,
        FieldType::List => "List"@,
        FieldType::DateTime => "DateTime"@,
        FieldType::Path => "Path"@,
        FieldType::Enum => "Enum"@,
    }
}

impl FieldType {
    /// The name this field type is shown under.
    pub fn name(&self) -> (s: String)
        ensures
            s@ == field_type_name(*self),
    {
        match self {
            FieldType::Boolean => String::from_str("Boolean"),
            FieldType::String => String::from_str("String"),
            FieldType::Integer => String::from_str("Integer"),
            FieldType::Float => String::from_str("Float"),
            FieldType::Currency => String::from_str("Currency"),
            FieldType::Reference => String::from_str("Reference"),
            FieldType::List => String::from_str("List"),
            FieldType::DateTime => String::from_str("DateTime"),
            FieldType::Path => String::from_str("Path"),
            FieldType::Enum => String::from_str("Enum"),
        }
    }
}

/// A field of a schema.
#[derive(Debug)]
pub struct FieldSchema {
    pub id: String,
    pub field_type: FieldType,
    pub required: bool,
    /// The position of the field in the schema's declaration order.
    pub order: usize,
    /// For an enum field, the values it allows.
    pub allowed_values: Option<Vec<String>>,
}

/// Each field's `order` is its position in the list.
pub open spec fn fields_in_order(fields: Seq<FieldSchema>) -> bool {
    forall|i: int| 0 <= i < fields.len() ==> (#[trigger] fields[i]).order == i
}

/// The schema of an entity type: its fields, in declaration order. A
/// field's `order` is always its position in the list, so the list is the
/// schema's fields ordered by `order`.
#[derive(Debug)]
pub struct EntitySchema {
    entity_type: String,
    fields: Vec<FieldSchema>,
}

impl EntitySchema {
    #[verifier::type_invariant]
    spec fn ordered(self) -> bool {
        fields_in_order(self.fields@)
    }

    /// The entity type this schema describes.
    pub closed spec fn spec_entity_type(self) -> Seq<char> {
        self.entity_type@
    }

    /// The schema's fields, in order.
    pub closed spec fn spec_fields(self) -> Seq<FieldSchema> {
        self.fields@
    }

    /// A schema with no fields.
    pub fn new(entity_type: &str) -> (s: Self)
        ensures
            s.spec_entity_type() == entity_type@,
            s.spec_fields().len() == 0,
    {
        EntitySchema { entity_type: String::from_str(entity_type), fields: Vec::new() }
    }

    /// The entity type this schema describes.
    pub fn entity_type(&self) -> (t: &str)
        ensures
            t@ == self.spec_entity_type(),
    {
        self.entity_type.as_str()
    }

    /// The schema's fields, ordered by `order`: each field's `order` is its
    /// position.
    pub fn fields(&self) -> (f: &Vec<FieldSchema>)
        ensures
            f@ == self.spec_fields(),
            fields_in_order(f@),
    {
        proof {
            use_type_invariant(self);
        }
        &self.fields
    }

    fn with_field(
        self,
        id: &str,
        field_type: FieldType,
        required: bool,
        allowed_values: Option<Vec<String>>,
    ) -> (s: Self)
        ensures
            s.spec_entity_type() == self.spec_entity_type(),
            s.spec_fields().len() == self.spec_fields().len() + 1,
            forall|i: int| 0 <= i < self.spec_fields().len() ==> s.spec_fields()[i] == self.spec_fields()[i],
            s.spec_fields().last().id@ == id@,
            s.spec_fields().last().field_type == field_type,
            s.spec_fields().last().required == required,
            s.spec_fields().last().order == self.spec_fields().len(),
            s.spec_fields().last().allowed_values == allowed_values,
    {
        proof {
            use_type_invariant(&self);
        }
        let EntitySchema { entity_type, mut fields } = self;
        let order = fields.len();
        fields.push(FieldSchema { id: String::from_str(id), field_type, required, order, allowed_values });
        EntitySchema { entity_type, fields }
    }

    /// Adds a required field of the given type, last in order.
    pub fn with_required_field(self, id: &str, field_type: FieldType) -> (s: Self)
        ensures
            s.spec_entity_type() == self.spec_entity_type(),
            s.spec_fields().len() == self.spec_fields().len() + 1,
            forall|i: int| 0 <= i < self.spec_fields().len() ==> s.spec_fields()[i] == self.spec_fields()[i],
            s.spec_fields().last().id@ == id@,
            s.spec_fields().last().field_type == field_type,
            s.spec_fields().last().required,
            s.spec_fields().last().order == self.spec_fields().len(),
            s.spec_fields().last().allowed_values is None,
    {
        self.with_field(id, field_type, true, None)
    }

    /// Adds an optional field of the given type, last in order.
    pub fn with_optional_field(self, id: &str, field_type: FieldType) -> (s: Self)
        ensures
            s.spec_entity_type() == self.spec_entity_type(),
            s.spec_fields().len() == self.spec_fields().len() + 1,
            forall|i: int| 0 <= i < self.spec_fields().len() ==> s.spec_fields()[i] == self.spec_fields()[i],
            s.spec_fields().last().id@ == id@,
            s.spec_fields().last().field_type == field_type,
            !s.spec_fields().last().required,
            s.spec_fields().last().order == self.spec_fields().len(),
            s.spec_fields().last().allowed_values is None,
    {
        self.with_field(id, field_type, false, None)
    }

    /// Adds a required enum field allowing the given values, last in order.
    pub fn with_required_enum(self, id: &str, values: Vec<String>) -> (s: Self)
        ensures
            s.spec_entity_type() == self.spec_entity_type(),
            s.spec_fields().len() == self.spec_fields().len() + 1,
            forall|i: int| 0 <= i < self.spec_fields().len() ==> s.spec_fields()[i] == self.spec_fields()[i],
            s.spec_fields().last().id@ == id@,
            s.spec_fields().last().field_type == FieldType::Enum,
            s.spec_fields().last().required,
            s.spec_fields().last().order == self.spec_fields().len(),
            s.spec_fields().last().allowed_values == Some(values),
    {
        self.with_field(id, FieldType::Enum, true, Some(values))
    }
}

/// A field of an entity, with the type of its value.
#[derive(Debug)]
pub struct EntityField {
    pub id: String,
    pub field_type: FieldType,
}

/// An entity: its composite ID (`type.id`), its type and its fields.
#[derive(Debug)]
pub struct Entity {
    pub id: String,
    pub entity_type: String,
    pub fields: Vec<EntityField>,
}

impl Entity {
    /// An entity with no fields.
    pub fn new(id: &str, entity_type: &str) -> (e: Self)
        ensures
            e.id@ == id@,
            e.entity_type@ == entity_type@,
            e.fields@.len() == 0,
    {
        Entity { id: String::from_str(id), entity_type: String::from_str(entity_type), fields: Vec::new() }
    }

    /// Adds a field whose value has the given type.
    pub fn with_field(self, id: &str, field_type: FieldType) -> (e: Self)
        ensures
            e.id == self.id,
            e.entity_type == self.entity_type,
            e.fields@.len() == self.fields@.len() + 1,
            forall|i: int| 0 <= i < self.fields@.len() ==> e.fields@[i] == self.fields@[i],
            e.fields@.last().id@ == id@,
            e.fields@.last().field_type == field_type,
    {
        let mut e = self;
        e.fields.push(EntityField { id: String::from_str(id), field_type });
        e
    }
}

/// The kind of a completion item.
#[derive(Debug, Clone, Copy, PartialEq, Eq, Structural)]
pub enum CompletionItemKind {
    Field,
    Module,
    Reference,
    EnumMember,
}

/// A completion suggestion.
#[derive(Debug, Clone, PartialEq)]
pub struct CompletionItem {
    pub label: String,
    pub kind: Option<CompletionItemKind>,
    pub detail: Option<String>,
    pub sort_text: Option<String>,
    pub insert_text: Option<String>,
    pub filter_text: Option<String>,
}

/// The mathematical value of a [`CompletionItem`].
pub struct ItemView {
    pub label: Seq<char>,
    pub kind: Option<CompletionItemKind>,
    pub detail: Option<Seq<char>>,
    pub sort_text: Option<Seq<char>>,
    pub insert_text: Option<Seq<char>>,
    pub filter_text: Option<Seq<char>>,
}

pub open spec fn opt_chars(o: Option<String>) -> Option<Seq<char>> {
    match o {
        Some(s) => Some(s@),
        None => None,
    }
}

impl View for CompletionItem {
    type V = ItemView;

    open spec fn view(&self) -> ItemView {
        ItemView {
            label: self.label@,
            kind: self.kind,
            detail: opt_chars(self.detail),
            sort_text: opt_chars(self.sort_text),
            insert_text: opt_chars(self.insert_text),
            filter_text: opt_chars(self.filter_text),
        }
    }
}

pub open spec fn item_views(items: Seq<CompletionItem>) -> Seq<ItemView> {
    items.map_values(|c: CompletionItem| c@)
}

/// The decimal notation of `n`, padded with leading zeros to four digits.
pub open spec fn pad4(n: nat) -> Seq<char> {
    let d = decimal(n);
    if d.len() >= 4 {
        d
    } else {
        Seq::new((4 - d.len()) as nat, |i: int| '0') + d
    }
}

/// The number of digits of `n`.
fn decimal_len(n: u64) -> (r: u64)
    ensures
        r == decimal(n as nat).len(),
        r <= n + 1,
    decreases n,
{
    if n < 10 {
        1
    } else {
        decimal_len(n / 10) + 1
    }
}

/// Appends the decimal notation of `n`, padded with leading zeros to four
/// digits.
fn append_pad4(out: &mut String, n: u64)
    ensures
        final(out)@ == old(out)@ + pad4(n as nat),
{
    let len = decimal_len(n);
    let ghost start = out@;
    let mut k = len;
    while k < 4
        invariant
            len <= k <= 4 || (len > 4 && k == len),
            len == decimal(n as nat).len(),
            out@ == start + Seq::new((k - len) as nat, |i: int| '0'),
        decreases 4 - k,
    {
        out.append("0");
        proof {
            reveal_strlit("0");
            assert(out@ =~= start + Seq::new((k + 1 - len) as nat, |i: int| '0'));
        }
        k = k + 1;
    }
    append_decimal(out, n);
    proof {
        assert(out@ =~= start + pad4(n as nat));
    }
}

/// The index of the first schema of entity type `t`.
pub open spec fn schema_index(schemas: Seq<EntitySchema>, t: Seq<char>, i: int) -> Option<int>
    decreases schemas.len() - i,
{
    if i < 0 || i >= schemas.len() {
        None
    } else if schemas[i].spec_entity_type() == t {
        Some(i)
    } else {
        schema_index(schemas, t, i + 1)
    }
}

pub proof fn lemma_schema_index(schemas: Seq<EntitySchema>, t: Seq<char>, i: int)
    requires
        0 <= i,
    ensures
        schema_index(schemas, t, i) matches Some(k) ==> i <= k < schemas.len()
            && schemas[k].spec_entity_type() == t,
    decreases schemas.len() - i,
{
    if 0 <= i < schemas.len() && schemas[i].spec_entity_type() != t {
        lemma_schema_index(schemas, t, i + 1);
    }
}

/// The schema of the given entity type: the first one in `schemas`.
fn find_schema<'b>(schemas: &'b Vec<EntitySchema>, entity_type: &str) -> (r: Option<&'b EntitySchema>)
    ensures
        match r {
            Some(s) => schema_index(schemas@, entity_type@, 0) matches Some(k) && *s == schemas@[k],
            None => schema_index(schemas@, entity_type@, 0) is None,
        },
{
    let mut i: usize = 0;
    while i < schemas.len()
        invariant
            i <= schemas@.len(),
            schema_index(schemas@, entity_type@, 0) == schema_index(schemas@, entity_type@, i as int),
        decreases schemas@.len() - i,
    {
        if str_eq(schemas[i].entity_type(), entity_type) {
            return Some(&schemas[i]);
        }
        i = i + 1;
    }
    None
}

/// The completion for a schema field.
pub open spec fn field_item(f: FieldSchema) -> ItemView {
    let name = f.id@;
    let sort_prefix = if f.required { "0"@ } else { "1"@ };
    let mode_label = if f.required { "required"@ } else { "optional"@ };
    ItemView {
        label: name,
        kind: Some(CompletionItemKind::Field),
        detail: Some(mode_label + ", "@ + field_type_name(f.field_type)),
        sort_text: Some(sort_prefix + "_"@ + pad4(f.order as nat) + "_"@ + name),
        insert_text: Some(name + " = "@),
        filter_text: None,
    }
}

/// Some of `names` reads `name`.
pub open spec fn names_contain(names: Seq<&str>, name: Seq<char>) -> bool {
    exists|j: int| 0 <= j < names.len() && (#[trigger] names[j])@ == name
}

/// The field-name completions for an entity type: the fields of its schema
/// not already present, in the schema's order.
pub open spec fn field_completions(
    entity_type: Seq<char>,
    existing_fields: Seq<&str>,
    schemas: Seq<EntitySchema>,
) -> Seq<ItemView> {
    match schema_index(schemas, entity_type, 0) {
        None => seq![],
        Some(k) => schemas[k].spec_fields().filter(
            |f: FieldSchema| !names_contain(existing_fields, f.id@),
        ).map_values(|f: FieldSchema| field_item(f)),
    }
}

fn contains_name(names: &[&str], name: &str) -> (r: bool)
    ensures
        r == names_contain(names@, name@),
{
    let mut j: usize = 0;
    while j < names.len()
        invariant
            j <= names@.len(),
            forall|m: int| 0 <= m < j ==> (#[trigger] names@[m])@ != name@,
        decreases names@.len() - j,
    {
        if str_eq(names[j], name) {
            return true;
        }
        j = j + 1;
    }
    false
}

fn make_field_item(f: &FieldSchema) -> (item: CompletionItem)
    ensures
        item@ == field_item(*f),
{
    let name = f.id.as_str();
    let (sort_prefix, mode_label) = if f.required {
        ("0", "required")
    } else {
        ("1", "optional")
    };
    let mut detail = String::from_str(mode_label);
    detail.append(", ");
    let shown_type = f.field_type.name();
    detail.append(shown_type.as_str());
    let mut sort_text = String::from_str(sort_prefix);
    sort_text.append("_");
    append_pad4(&mut sort_text, f.order as u64);
    sort_text.append("_");
    sort_text.append(name);
    let mut insert_text = String::from_str(name);
    insert_text.append(" = ");
    let item = CompletionItem {
        label: String::from_str(name),
        kind: Some(CompletionItemKind::Field),
        detail: Some(detail),
        sort_text: Some(sort_text),
        insert_text: Some(insert_text),
        filter_text: None,
    };
    proof {
        assert(item@ =~= field_item(*f));
    }
    item
}

/// Generate field name completions for an entity type.
///
/// Returns completion items for schema fields not already present in the
/// entity, ordered by each field's `order` (which is its position in the
/// schema); each item's sort text puts required fields before optional ones.
pub fn complete_field_names(
    entity_type: &str,
    existing_fields: &[&str],
    schemas: &Vec<EntitySchema>,
) -> (items: Vec<CompletionItem>)
    ensures
        item_views(items@) == field_completions(entity_type@, existing_fields@, schemas@),
        schema_index(schemas@, entity_type@, 0) matches Some(k) ==> fields_in_order(
            schemas@[k].spec_fields(),
        ),
{
    let schema = match find_schema(schemas, entity_type) {
        Some(s) => s,
        None => {
            let items = Vec::new();
            proof {
                assert(item_views(items@) =~= Seq::<ItemView>::empty());
            }
            return items;
        },
    };
    proof {
        use_type_invariant(schema);
    }
    let ghost keep = |f: FieldSchema| !names_contain(existing_fields@, f.id@);
    let ghost mk = |f: FieldSchema| field_item(f);
    let mut items: Vec<CompletionItem> = Vec::new();
    let mut i: usize = 0;
    while i < schema.fields.len()
        invariant
            i <= schema.spec_fields().len(),
            keep == (|f: FieldSchema| !names_contain(existing_fields@, f.id@)),
            mk == (|f: FieldSchema| field_item(f)),
            item_views(items@) == schema.spec_fields().take(i as int).filter(keep).map_values(mk),
        decreases schema.spec_fields().len() - i,
    {
        let field = &schema.fields[i];
        let ghost before = items@;
        proof {
            assert(schema.spec_fields().take(i + 1) =~= schema.spec_fields().take(i as int).push(*field));
            schema.spec_fields().take(i as int).lemma_filter_push(*field, keep);
        }
        if !contains_name(existing_fields, field.id.as_str()) {
            let item = make_field_item(field);
            items.push(item);
            proof {
                assert(item_views(items@) =~= item_views(before).push(mk(*field)));
                assert(schema.spec_fields().take(i as int).filter(keep).push(*field).map_values(mk)
                    =~= schema.spec_fields().take(i as int).filter(keep).map_values(mk).push(mk(*field)));
            }
        }
        i = i + 1;
    }
    proof {
        assert(schema.spec_fields().take(schema.spec_fields().len() as int) =~= schema.spec_fields());
    }
    items
}

/// The index of the first field named `name`.
pub open spec fn field_schema_index(fields: Seq<FieldSchema>, name: Seq<char>, i: int) -> Option<int>
    decreases fields.len() - i,
{
    if i < 0 || i >= fields.len() {
        None
    } else if fields[i].id@ == name {
        Some(i)
    } else {
        field_schema_index(fields, name, i + 1)
    }
}

pub proof fn lemma_field_schema_index(fields: Seq<FieldSchema>, name: Seq<char>, i: int)
    requires
        0 <= i,
    ensures
        field_schema_index(fields, name, i) matches Some(k) ==> i <= k < fields.len()
            && fields[k].id@ == name,
    decreases fields.len() - i,
{
    if 0 <= i < fields.len() && fields[i].id@ != name {
        lemma_field_schema_index(fields, name, i + 1);
    }
}

/// The first field of the schema with the given name.
fn find_field_schema<'b>(schema: &'b EntitySchema, field_name: &str) -> (r: Option<&'b FieldSchema>)
    ensures
        match r {
            Some(f) => field_schema_index(schema.spec_fields(), field_name@, 0) matches Some(k) && *f
                == schema.spec_fields()[k],
            None => field_schema_index(schema.spec_fields(), field_name@, 0) is None,
        },
{
    let mut i: usize = 0;
    while i < schema.fields.len()
        invariant
            i <= schema.spec_fields().len(),
            field_schema_index(schema.spec_fields(), field_name@, 0) == field_schema_index(
                schema.spec_fields(),
                field_name@,
                i as int,
            ),
        decreases schema.spec_fields().len() - i,
    {
        if str_eq(schema.fields[i].id.as_str(), field_name) {
            return Some(&schema.fields[i]);
        }
        i = i + 1;
    }
    None
}

/// The completion for the `i`-th allowed value of an enum field.
pub open spec fn enum_item(i: nat, value: Seq<char>, field_name: Seq<char>) -> ItemView {
    ItemView {
        label: value,
        kind: Some(CompletionItemKind::EnumMember),
        detail: Some(field_name + " value"@),
        sort_text: Some(pad4(i) + "_"@ + value),
        insert_text: None,
        filter_text: None,
    }
}

/// The enum-value completions for a field: one per allowed value, in order,
/// when the entity type has a schema whose field of that name allows values.
pub open spec fn enum_completions(
    entity_type: Seq<char>,
    field_name: Seq<char>,
    schemas: Seq<EntitySchema>,
) -> Seq<ItemView> {
    match schema_index(schemas, entity_type, 0) {
        None => seq![],
        Some(k) => match field_schema_index(schemas[k].spec_fields(), field_name, 0) {
            None => seq![],
            Some(f) => match schemas[k].spec_fields()[f].allowed_values {
                None => seq![],
                Some(values) => Seq::new(
                    values@.len(),
                    |i: int| enum_item(i as nat, values@[i]@, field_name),
                ),
            },
        },
    }
}

/// Generate enum value completions for a field with allowed values.
///
/// Looks up the schema for the entity type, finds the field, and if it
/// allows a fixed set of values, returns those as completion items.
pub fn complete_enum_values(
    entity_type: &str,
    field_name: &str,
    schemas: &Vec<EntitySchema>,
) -> (items: Vec<CompletionItem>)
    ensures
        item_views(items@) == enum_completions(entity_type@, field_name@, schemas@),
{
    let mut items: Vec<CompletionItem> = Vec::new();
    proof {
        assert(item_views(items@) =~= Seq::<ItemView>::empty());
        lemma_schema_index(schemas@, entity_type@, 0);
    }
    let schema = match find_schema(schemas, entity_type) {
        Some(s) => s,
        None => return items,
    };
    let field_schema = match find_field_schema(schema, field_name) {
        Some(f) => f,
        None => return items,
    };
    let allowed_values = match &field_schema.allowed_values {
        Some(v) => v,
        None => return items,
    };
    let mut i: usize = 0;
    while i < allowed_values.len()
        invariant
            i <= allowed_values@.len(),
            item_views(items@) == Seq::new(
                i as nat,
                |j: int| enum_item(j as nat, allowed_values@[j]@, field_name@),
            ),
        decreases allowed_values@.len() - i,
    {
        let value = &allowed_values[i];
        let mut detail = String::from_str(field_name);
        detail.append(" value");
        let mut sort_text = String::new();
        append_pad4(&mut sort_text, i as u64);
        sort_text.append("_");
        sort_text.append(value.as_str());
        let item = CompletionItem {
            label: value.clone(),
            kind: Some(CompletionItemKind::EnumMember),
            detail: Some(detail),
            sort_text: Some(sort_text),
            insert_text: None,
            filter_text: None,
        };
        let ghost before = items@;
        proof {
            assert(item@ =~= enum_item(i as nat, allowed_values@[i as int]@, field_name@));
        }
        items.push(item);
        proof {
            assert(item_views(items@) =~= item_views(before).push(item@));
            assert(item_views(items@) =~= Seq::new(
                (i + 1) as nat,
                |j: int| enum_item(j as nat, allowed_values@[j]@, field_name@),
            ));
        }
        i = i + 1;
    }
    items
}

/// The bytes items are ordered by: those of the label.
pub open spec fn label_key(v: ItemView) -> Seq<u8> {
    encode_utf8(v.label)
}

/// The items are in label order.
pub open spec fn sorted_by_label(vs: Seq<ItemView>) -> bool {
    forall|i: int, j: int|
        0 <= i < j < vs.len() ==> lex_le(#[trigger] label_key(vs[i]), #[trigger] label_key(vs[j]))
}

/// Where an item with the given label goes in a label-ordered list: after
/// every item whose label is not greater.
fn insertion_point(items: &Vec<CompletionItem>, label: &String) -> (p: usize)
    ensures
        p <= items@.len(),
        forall|j: int| 0 <= j < p ==> lex_le(label_key((#[trigger] items@[j])@), encode_utf8(label@)),
        p < items@.len() ==> lex_lt(encode_utf8(label@), label_key(items@[p as int]@)),
{
    let key = label.as_str().as_bytes();
    let mut p: usize = 0;
    while p < items.len()
        invariant
            p <= items@.len(),
            key@ == encode_utf8(label@),
            forall|j: int| 0 <= j < p ==> lex_le(label_key((#[trigger] items@[j])@), encode_utf8(label@)),
        decreases items@.len() - p,
    {
        if bytes_lt(key, items[p].label.as_str().as_bytes()) {
            return p;
        }
        p = p + 1;
    }
    p
}

/// Inserts an item into a label-ordered list, after the items whose label
/// is not greater.
fn insert_sorted(items: &mut Vec<CompletionItem>, item: CompletionItem)
    requires
        sorted_by_label(item_views(old(items)@)),
    ensures
        sorted_by_label(item_views(final(items)@)),
        exists|p: int|
            0 <= p <= old(items)@.len() && item_views(final(items)@) == item_views(
                old(items)@,
            ).insert(p, item@),
{
    let p = insertion_point(items, &item.label);
    let ghost old_views = item_views(items@);
    let ghost v = item@;
    items.insert(p, item);
    let ghost new_views = item_views(items@);
    proof {
        assert(new_views =~= old_views.insert(p as int, v));
        assert forall|i: int, j: int|
            0 <= i < j < new_views.len() implies lex_le(
            #[trigger] label_key(new_views[i]),
            #[trigger] label_key(new_views[j]),
        ) by {
            let a = new_views[i];
            let b = new_views[j];
            if j < p {
                assert(a == old_views[i] && b == old_views[j]);
            } else if j == p {
                assert(a == old_views[i]);
                assert(old_views[i] == items@[i]@);
            } else if i < p {
                assert(a == old_views[i] && b == old_views[j - 1]);
            } else if i == p {
                assert(b == old_views[j - 1]);
                assert(old_views[p as int] == old(items)@[p as int]@);
                lemma_lex_order(label_key(v), label_key(old_views[p as int]), label_key(b));
                if j - 1 > p {
                    assert(lex_le(label_key(old_views[p as int]), label_key(old_views[j - 1])));
                }
            } else {
                assert(a == old_views[i - 1] && b == old_views[j - 1]);
            }
        }
    }
}

/// The completion for an entity type.
pub open spec fn type_item(t: Seq<char>) -> ItemView {
    ItemView {
        label: t + "."@,
        kind: Some(CompletionItemKind::Module),
        detail: Some("entity type"@),
        sort_text: None,
        insert_text: Some(t + "."@),
        filter_text: None,
    }
}

/// An entity's type is offered for the typed prefix.
pub open spec fn type_offered(e: Entity, prefix: Seq<u8>) -> bool {
    bytes_start_with(encode_utf8(e.entity_type@), prefix)
}

/// The ID part of a composite entity ID: what follows its first dot, or
/// the whole ID when it has none.
pub open spec fn id_part(id: Seq<u8>) -> Seq<u8> {
    match find_byte_from(id, 46u8, 0) {
        Some(k) => id.subrange(k + 1, id.len() as int),
        None => id,
    }
}

/// An entity is offered for a typed `type.partial` prefix.
pub open spec fn id_offered(e: Entity, entity_type: Seq<u8>, id_prefix: Seq<u8>) -> bool {
    &&& encode_utf8(e.entity_type@) == entity_type
    &&& bytes_start_with(id_part(encode_utf8(e.id@)), id_prefix)
}

/// The completion for an entity's ID.
pub open spec fn id_item(e: Entity) -> ItemView {
    let label = decode_utf8(id_part(encode_utf8(e.id@)));
    ItemView {
        label: label,
        kind: Some(CompletionItemKind::Reference),
        detail: Some(e.entity_type@),
        sort_text: None,
        insert_text: None,
        filter_text: Some(label),
    }
}

/// The index of the first entity whose composite ID reads `id`.
pub open spec fn entity_index(entities: Seq<Entity>, id: Seq<u8>, i: int) -> Option<int>
    decreases entities.len() - i,
{
    if i < 0 || i >= entities.len() {
        None
    } else if encode_utf8(entities[i].id@) == id {
        Some(i)
    } else {
        entity_index(entities, id, i + 1)
    }
}

/// A field is offered for a typed `type.id.partial` prefix.
pub open spec fn field_offered(f: EntityField, field_prefix: Seq<u8>) -> bool {
    bytes_start_with(encode_utf8(f.id@), field_prefix)
}

/// The completion for an entity's field.
pub open spec fn field_ref_item(f: EntityField) -> ItemView {
    ItemView {
        label: f.id@,
        kind: Some(CompletionItemKind::Field),
        detail: Some(field_type_name(f.field_type)),
        sort_text: None,
        insert_text: None,
        filter_text: Some(f.id@),
    }
}

/// The reference completions for a typed prefix, by the number of dots in it:
/// - none: one item per entity type that starts with the prefix, each once;
/// - one (`type.partial`): one item per entity of that type whose ID starts
///   with the part after the dot;
/// - two (`type.id.partial`): one item per field, whose name starts with the
///   part after the second dot, of the first entity with composite ID `type.id`;
/// - more: none.
/// The items are in label order.
pub open spec fn reference_completions(prefix: Seq<u8>, entities: Seq<Entity>, r: Seq<ItemView>) -> bool {
    let dots = count_byte(prefix, 46u8);
    if dots == 0 {
        &&& sorted_by_label(r)
        &&& r.no_duplicates()
        &&& forall|v: ItemView|
            r.contains(v) <==> exists|i: int|
                0 <= i < entities.len() && type_offered(#[trigger] entities[i], prefix) && v
                    == type_item(entities[i].entity_type@)
    } else if dots == 1 {
        match find_byte_from(prefix, 46u8, 0) {
            Some(d1) => {
                &&& sorted_by_label(r)
                &&& r.to_multiset() == entities.filter(
                    |e: Entity|
                        id_offered(
                            e,
                            prefix.subrange(0, d1),
                            prefix.subrange(d1 + 1, prefix.len() as int),
                        ),
                ).map_values(|e: Entity| id_item(e)).to_multiset()
            },
            None => r.len() == 0,
        }
    } else if dots == 2 {
        match find_byte_from(prefix, 46u8, 0) {
            Some(d1) => match find_byte_from(prefix, 46u8, d1 + 1) {
                Some(d2) => match entity_index(entities, prefix.subrange(0, d2), 0) {
                    None => r.len() == 0,
                    Some(k) => {
                        &&& sorted_by_label(r)
                        &&& r.to_multiset() == entities[k].fields@.filter(
                            |f: EntityField|
                                field_offered(f, prefix.subrange(d2 + 1, prefix.len() as int)),
                        ).map_values(|f: EntityField| field_ref_item(f)).to_multiset()
                    },
                },
                None => r.len() == 0,
            },
            None => r.len() == 0,
        }
    } else {
        r.len() == 0
    }
}

proof fn lemma_insert_contains<A>(s: Seq<A>, p: int, v: A)
    requires
        0 <= p <= s.len(),
    ensures
        forall|x: A| #[trigger] s.insert(p, v).contains(x) <==> (x == v || s.contains(x)),
        s.no_duplicates() && !s.contains(v) ==> s.insert(p, v).no_duplicates(),
{
    let t = s.insert(p, v);
    assert forall|x: A| #[trigger] t.contains(x) <==> (x == v || s.contains(x)) by {
        if t.contains(x) {
            let i = choose|i: int| 0 <= i < t.len() && t[i] == x;
            if i < p {
                assert(s[i] == x);
            } else if i > p {
                assert(s[i - 1] == x);
            }
        }
        if x == v {
            assert(t[p] == v);
        }
        if s.contains(x) {
            let i = choose|i: int| 0 <= i < s.len() && s[i] == x;
            if i < p {
                assert(t[i] == x);
            } else {
                assert(t[i + 1] == x);
            }
        }
    }
    if s.no_duplicates() && !s.contains(v) {
        assert forall|i: int, j: int| 0 <= i < t.len() && 0 <= j < t.len() && i != j implies t[i] != t[j] by {
            if i == p {
                if j < p {
                    assert(s.contains(t[j]) && t[j] == s[j]);
                } else {
                    assert(s.contains(t[j]) && t[j] == s[j - 1]);
                }
            } else if j == p {
                if i < p {
                    assert(s.contains(t[i]) && t[i] == s[i]);
                } else {
                    assert(s.contains(t[i]) && t[i] == s[i - 1]);
                }
            } else {
                let a = if i < p { i } else { i - 1 };
                let b = if j < p { j } else { j - 1 };
                assert(t[i] == s[a] && t[j] == s[b]);
            }
        }
    }
}

/// Whether some item has the given label.
fn has_label(items: &Vec<CompletionItem>, label: &String) -> (r: bool)
    ensures
        r == exists|j: int| 0 <= j < items@.len() && (#[trigger] items@[j]).label@ == label@,
{
    let mut j: usize = 0;
    while j < items.len()
        invariant
            j <= items@.len(),
            forall|m: int| 0 <= m < j ==> (#[trigger] items@[m]).label@ != label@,
        decreases items@.len() - j,
    {
        if items[j].label == *label {
            return true;
        }
        j = j + 1;
    }
    false
}

proof fn lemma_dot_suffix_injective(a: Seq<char>, b: Seq<char>)
    requires
        a + "."@ == b + "."@,
    ensures
        a == b,
{
    reveal_strlit(".");
    let d = "."@;
    assert((a + d).len() == a.len() + d.len());
    assert((b + d).len() == b.len() + d.len());
    assert(a.len() == b.len());
    assert forall|i: int| 0 <= i < a.len() implies a[i] == b[i] by {
        assert((a + d)[i] == a[i]);
        assert((b + d)[i] == b[i]);
    }
    assert(a =~= b);
}

/// Suggest the entity types that start with the typed prefix.
fn complete_entity_types(prefix: &str, entities: &[Entity]) -> (items: Vec<CompletionItem>)
    ensures
        sorted_by_label(item_views(items@)),
        item_views(items@).no_duplicates(),
        forall|v: ItemView|
            item_views(items@).contains(v) <==> exists|i: int|
                0 <= i < entities@.len() && type_offered(#[trigger] entities@[i], prefix.spec_bytes())
                    && v == type_item(entities@[i].entity_type@),
{
    let p = prefix.as_bytes();
    let mut items: Vec<CompletionItem> = Vec::new();
    let mut i: usize = 0;
    proof {
        assert(item_views(items@) =~= Seq::<ItemView>::empty());
    }
    while i < entities.len()
        invariant
            i <= entities@.len(),
            p@ == prefix.spec_bytes(),
            sorted_by_label(item_views(items@)),
            item_views(items@).no_duplicates(),
            forall|v: ItemView|
                item_views(items@).contains(v) <==> exists|j: int|
                    0 <= j < i && type_offered(#[trigger] entities@[j], p@) && v == type_item(
                        entities@[j].entity_type@,
                    ),
        decreases entities@.len() - i,
    {
        let e = &entities[i];
        let ghost t = e.entity_type@;
        let ghost old_views = item_views(items@);
        if starts_with(e.entity_type.as_str().as_bytes(), p) {
            let mut label = e.entity_type.clone();
            label.append(".");
            if !has_label(&items, &label) {
                let mut insert_text = e.entity_type.clone();
                insert_text.append(".");
                let item = CompletionItem {
                    label,
                    kind: Some(CompletionItemKind::Module),
                    detail: Some(String::from_str("entity type")),
                    sort_text: None,
                    insert_text: Some(insert_text),
                    filter_text: None,
                };
                proof {
                    assert(item@ =~= type_item(t));
                    if old_views.contains(item@) {
                        let j = choose|j: int| 0 <= j < old_views.len() && old_views[j] == item@;
                        assert(items@[j].label@ == old_views[j].label);
                    }
                }
                insert_sorted(&mut items, item);
                proof {
                    let q = choose|q: int|
                        0 <= q <= old_views.len() && item_views(items@) == old_views.insert(q, type_item(t));
                    lemma_insert_contains(old_views, q, type_item(t));
                    assert forall|v: ItemView|
                        item_views(items@).contains(v) <==> exists|j: int|
                            0 <= j < i + 1 && type_offered(#[trigger] entities@[j], p@) && v
                                == type_item(entities@[j].entity_type@) by {
                        if v == type_item(t) {
                            assert(type_offered(entities@[i as int], p@));
                        }
                    }
                }
            } else {
                proof {
                    let j = choose|j: int| 0 <= j < items@.len() && (#[trigger] items@[j]).label@ == label@;
                    assert(old_views[j] == items@[j]@);
                    assert(old_views.contains(old_views[j]));
                    let k = choose|k: int|
                        0 <= k < i && type_offered(#[trigger] entities@[k], p@) && old_views[j]
                            == type_item(entities@[k].entity_type@);
                    lemma_dot_suffix_injective(entities@[k].entity_type@, t);
                    assert forall|v: ItemView|
                        item_views(items@).contains(v) <==> exists|m: int|
                            0 <= m < i + 1 && type_offered(#[trigger] entities@[m], p@) && v
                                == type_item(entities@[m].entity_type@) by {
                        if v == type_item(t) && type_offered(entities@[i as int], p@) {
                            assert(type_offered(entities@[k], p@));
                        }
                    }
                }
            }
        } else {
            proof {
                assert forall|v: ItemView|
                    item_views(items@).contains(v) <==> exists|m: int|
                        0 <= m < i + 1 && type_offered(#[trigger] entities@[m], p@) && v
                            == type_item(entities@[m].entity_type@) by {
                    if exists|m: int|
                        0 <= m < i + 1 && type_offered(#[trigger] entities@[m], p@) && v
                            == type_item(entities@[m].entity_type@) {
                        let m = choose|m: int|
                            0 <= m < i + 1 && type_offered(#[trigger] entities@[m], p@) && v
                                == type_item(entities@[m].entity_type@);
                        assert(m != i);
                    }
                }
            }
        }
        i = i + 1;
    }
    items
}

/// The ID part of a composite entity ID: what follows its first dot, or the
/// whole ID when it has none.
pub fn decompose_entity_id(id: &str) -> (t: &str)
    ensures
        t.spec_bytes() == id_part(id.spec_bytes()),
        t@ == decode_utf8(id_part(id.spec_bytes())),
{
    let b = id.as_bytes();
    let n = b.len();
    let ghost bytes = id.spec_bytes();
    proof {
        encode_utf8_valid_utf8(id@);
        lemma_find_byte_from(bytes, 46u8, 0);
        is_char_boundary_start_end_of_seq(bytes);
    }
    let t = match find_byte(b, 46u8, 0) {
        Some(k) => {
            proof {
                lemma_ascii_boundaries(bytes, k as int);
            }
            substring(id, k + 1, n)
        },
        None => id,
    };
    proof {
        encode_utf8_decode_utf8(t@);
    }
    t
}

/// Suggest the IDs of the entities of a type, for a `type.partial` prefix
/// whose dot is at byte `d1`.
fn complete_entity_ids(prefix: &str, d1: usize, entities: &[Entity]) -> (items: Vec<CompletionItem>)
    requires
        d1 < prefix.spec_bytes().len(),
    ensures
        sorted_by_label(item_views(items@)),
        item_views(items@).to_multiset() == entities@.filter(
            |e: Entity|
                id_offered(
                    e,
                    prefix.spec_bytes().subrange(0, d1 as int),
                    prefix.spec_bytes().subrange(d1 + 1, prefix.spec_bytes().len() as int),
                ),
        ).map_values(|e: Entity| id_item(e)).to_multiset(),
{
    let p = prefix.as_bytes();
    let n = p.len();
    let ghost pb = prefix.spec_bytes();
    let ghost pred = |e: Entity|
        id_offered(e, pb.subrange(0, d1 as int), pb.subrange(d1 + 1, pb.len() as int));
    let ghost mk = |e: Entity| id_item(e);
    let mut items: Vec<CompletionItem> = Vec::new();
    let mut i: usize = 0;
    proof {
        assert(item_views(items@) =~= Seq::<ItemView>::empty());
        assert(entities@.take(0).filter(pred).map_values(mk) =~= Seq::<ItemView>::empty());
    }
    while i < entities.len()
        invariant
            i <= entities@.len(),
            p@ == pb,
            n == pb.len(),
            pb == prefix.spec_bytes(),
            d1 < pb.len(),
            pred == (|e: Entity|
                id_offered(e, pb.subrange(0, d1 as int), pb.subrange(d1 + 1, pb.len() as int))),
            mk == (|e: Entity| id_item(e)),
            sorted_by_label(item_views(items@)),
            item_views(items@).to_multiset() == entities@.take(i as int).filter(pred).map_values(
                mk,
            ).to_multiset(),
        decreases entities@.len() - i,
    {
        let e = &entities[i];
        let ghost old_views = item_views(items@);
        proof {
            assert(entities@.take(i + 1) =~= entities@.take(i as int).push(*e));
            entities@.take(i as int).lemma_filter_push(*e, pred);
            entities@.take(i as int).filter(pred).lemma_push_map_commute(mk, *e);
        }
        let type_matches = eq_range(e.entity_type.as_str().as_bytes(), p, 0, d1);
        let eid = decompose_entity_id(e.id.as_str());
        if type_matches && starts_with_range(eid.as_bytes(), p, d1 + 1, n) {
            let item = CompletionItem {
                label: String::from_str(eid),
                kind: Some(CompletionItemKind::Reference),
                detail: Some(e.entity_type.clone()),
                sort_text: None,
                insert_text: None,
                filter_text: Some(String::from_str(eid)),
            };
            proof {
                assert(pred(*e));
                assert(item@ =~= mk(*e));
            }
            insert_sorted(&mut items, item);
            proof {
                let q = choose|q: int|
                    0 <= q <= old_views.len() && item_views(items@) == #[trigger] old_views.insert(q, mk(*e));
                assert(item_views(items@).to_multiset() =~= old_views.to_multiset().insert(mk(*e)));
            }
        } else {
            proof {
                assert(!pred(*e));
            }
        }
        i = i + 1;
    }
    proof {
        assert(entities@.take(entities@.len() as int) =~= entities@);
    }
    items
}

/// The entity whose composite ID reads the first `d2` bytes of the prefix.
fn find_entity<'b>(entities: &'b [Entity], p: &[u8], d2: usize) -> (r: Option<&'b Entity>)
    requires
        d2 <= p@.len(),
    ensures
        match r {
            Some(e) => entity_index(entities@, p@.subrange(0, d2 as int), 0) matches Some(k) && *e
                == entities@[k],
            None => entity_index(entities@, p@.subrange(0, d2 as int), 0) is None,
        },
{
    let mut i: usize = 0;
    while i < entities.len()
        invariant
            i <= entities@.len(),
            d2 <= p@.len(),
            entity_index(entities@, p@.subrange(0, d2 as int), 0) == entity_index(
                entities@,
                p@.subrange(0, d2 as int),
                i as int,
            ),
        decreases entities@.len() - i,
    {
        if eq_range(entities[i].id.as_str().as_bytes(), p, 0, d2) {
            return Some(&entities[i]);
        }
        i = i + 1;
    }
    None
}

/// Suggest the fields of an entity whose names start with the part of the
/// prefix after byte `d2`.
fn complete_entity_fields(p: &[u8], d2: usize, entity: &Entity) -> (items: Vec<CompletionItem>)
    requires
        d2 < p@.len(),
    ensures
        sorted_by_label(item_views(items@)),
        item_views(items@).to_multiset() == entity.fields@.filter(
            |f: EntityField| field_offered(f, p@.subrange(d2 + 1, p@.len() as int)),
        ).map_values(|f: EntityField| field_ref_item(f)).to_multiset(),
{
    let ghost pred = |f: EntityField| field_offered(f, p@.subrange(d2 + 1, p@.len() as int));
    let ghost mk = |f: EntityField| field_ref_item(f);
    let fields = &entity.fields;
    let n = p.len();
    let mut items: Vec<CompletionItem> = Vec::new();
    let mut i: usize = 0;
    proof {
        assert(item_views(items@) =~= Seq::<ItemView>::empty());
        assert(fields@.take(0).filter(pred).map_values(mk) =~= Seq::<ItemView>::empty());
    }
    while i < fields.len()
        invariant
            i <= fields@.len(),
            d2 < p@.len(),
            n == p@.len(),
            fields == &entity.fields,
            pred == (|f: EntityField| field_offered(f, p@.subrange(d2 + 1, p@.len() as int))),
            mk == (|f: EntityField| field_ref_item(f)),
            sorted_by_label(item_views(items@)),
            item_views(items@).to_multiset() == fields@.take(i as int).filter(pred).map_values(
                mk,
            ).to_multiset(),
        decreases fields@.len() - i,
    {
        let f = &fields[i];
        let ghost old_views = item_views(items@);
        proof {
            assert(fields@.take(i + 1) =~= fields@.take(i as int).push(*f));
            fields@.take(i as int).lemma_filter_push(*f, pred);
            fields@.take(i as int).filter(pred).lemma_push_map_commute(mk, *f);
        }
        if starts_with_range(f.id.as_str().as_bytes(), p, d2 + 1, n) {
            let item = CompletionItem {
                label: f.id.clone(),
                kind: Some(CompletionItemKind::Field),
                detail: Some(f.field_type.name()),
                sort_text: None,
                insert_text: None,
                filter_text: Some(f.id.clone()),
            };
            proof {
                assert(pred(*f));
                assert(item@ =~= mk(*f));
            }
            insert_sorted(&mut items, item);
            proof {
                let q = choose|q: int|
                    0 <= q <= old_views.len() && item_views(items@) == #[trigger] old_views.insert(q, mk(*f));
                assert(item_views(items@).to_multiset() =~= old_views.to_multiset().insert(mk(*f)));
            }
        } else {
            proof {
                assert(!pred(*f));
            }
        }
        i = i + 1;
    }
    proof {
        assert(fields@.take(fields@.len() as int) =~= fields@);
    }
    items
}

/// Generate reference completions from a typed prefix.
///
/// - No dot yet → suggest entity type names
/// - `type.` → suggest all entity IDs of that type (inserts just the ID)
/// - `type.partial` → suggest matching entity IDs (inserts just the ID)
/// - `type.id.` → suggest field names from the matched entity
/// - `type.id.partial` → suggest matching field names
///
/// Items come in label order.
pub fn complete_references(prefix: &str, entities: &[Entity]) -> (items: Vec<CompletionItem>)
    ensures
        reference_completions(prefix.spec_bytes(), entities@, item_views(items@)),
{
    let p = prefix.as_bytes();
    let n = p.len();
    let dot_count = count_bytes(p, 46u8);
    proof {
        lemma_find_byte_from(p@, 46u8, 0);
    }
    if dot_count == 0 {
        complete_entity_types(prefix, entities)
    } else if dot_count == 1 {
        match find_byte(p, 46u8, 0) {
            Some(d1) => complete_entity_ids(prefix, d1, entities),
            None => {
                let items = Vec::new();
                proof {
                    assert(item_views(items@) =~= Seq::<ItemView>::empty());
                }
                items
            },
        }
    } else if dot_count == 2 {
        let empty: Vec<CompletionItem> = Vec::new();
        proof {
            assert(item_views(empty@) =~= Seq::<ItemView>::empty());
        }
        match find_byte(p, 46u8, 0) {
            Some(d1) => {
                proof {
                    lemma_find_byte_from(p@, 46u8, d1 + 1);
                }
                match find_byte(p, 46u8, d1 + 1) {
                    Some(d2) => match find_entity(entities, p, d2) {
                        Some(entity) => complete_entity_fields(p, d2, entity),
                        None => empty,
                    },
                    None => empty,
                }
            },
            None => empty,
        }
    } else {
        let items = Vec::new();
        proof {
            assert(item_views(items@) =~= Seq::<ItemView>::empty());
        }
        items
    }
}

proof fn lemma_encode_concat(a: Seq<char>, b: Seq<char>)
    ensures
        encode_utf8(a + b) == encode_utf8(a) + encode_utf8(b),
    decreases a.len(),
{
    if a.len() == 0 {
        assert(a + b =~= b);
        assert(encode_utf8(a) + encode_utf8(b) =~= encode_utf8(b));
    } else {
        lemma_encode_concat(a.drop_first(), b);
        assert((a + b).drop_first() =~= a.drop_first() + b);
        assert((a + b)[0] == a[0]);
        assert(encode_utf8(a + b) =~= encode_utf8(a) + encode_utf8(b));
    }
}

proof fn lemma_encode_ascii_char(c: char)
    requires
        (c as u32) < 0x80,
    ensures
        encode_utf8(seq![c]) == seq![c as u32 as u8],
{
    let v = c as u32;
    assert(v & 0x7f == v) by (bit_vector)
        requires
            v < 0x80,
    ;
    assert(seq![c].drop_first() =~= Seq::<char>::empty());
    assert(encode_utf8(Seq::<char>::empty()) =~= Seq::<u8>::empty());
    assert(seq![c][0] == c);
    assert(encode_utf8(seq![c]) == vstd::utf8::encode_scalar(v) + encode_utf8(seq![c].drop_first()));
    assert(vstd::utf8::encode_scalar(v) =~= seq![(v & 0x7f) as u8]);
    assert(encode_utf8(seq![c]) =~= seq![c as u32 as u8]);
}

/// The sort text of a required field comes before that of an optional
/// one, so required fields are listed first.
pub proof fn law_required_fields_sort_first(required: FieldSchema, optional: FieldSchema)
    requires
        required.required,
        !optional.required,
    ensures
        lex_lt(
            encode_utf8(field_item(required).sort_text.unwrap()),
            encode_utf8(field_item(optional).sort_text.unwrap()),
        ),
{
    reveal_strlit("0");
    reveal_strlit("1");
    let a = field_item(required).sort_text.unwrap();
    let b = field_item(optional).sort_text.unwrap();
    let ra = a.drop_first();
    let rb = b.drop_first();
    assert(a =~= seq!['0'] + ra);
    assert(b =~= seq!['1'] + rb);
    lemma_encode_concat(seq!['0'], ra);
    lemma_encode_concat(seq!['1'], rb);
    lemma_encode_ascii_char('0');
    lemma_encode_ascii_char('1');
    assert(encode_utf8(a)[0] == 48u8);
    assert(encode_utf8(b)[0] == 49u8);
}

/// The schema fields offered as field-name completions: those of the
/// entity type's schema that the entity does not have yet, in the schema's
/// order.
pub open spec fn offered_fields(
    entity_type: Seq<char>,
    existing_fields: Seq<&str>,
    schemas: Seq<EntitySchema>,
) -> Seq<FieldSchema> {
    match schema_index(schemas, entity_type, 0) {
        None => seq![],
        Some(k) => schemas[k].spec_fields().filter(
            |f: FieldSchema| !names_contain(existing_fields, f.id@),
        ),
    }
}

/// The fields' `order` values increase along the list.
pub open spec fn increasing_order(fields: Seq<FieldSchema>) -> bool {
    forall|i: int, j: int|
        0 <= i < j < fields.len() ==> (#[trigger] fields[i]).order < (#[trigger] fields[j]).order
}

proof fn lemma_filter_keeps_increasing_order(s: Seq<FieldSchema>, keep: spec_fn(FieldSchema) -> bool)
    requires
        increasing_order(s),
    ensures
        increasing_order(s.filter(keep)),
        forall|i: int|
            0 <= i < s.filter(keep).len() ==> exists|m: int|
                0 <= m < s.len() && s[m] == #[trigger] s.filter(keep)[i],
    decreases s.len(),
{
    if s.len() > 0 {
        let init = s.drop_last();
        let last = s.last();
        assert(init.push(last) =~= s);
        init.lemma_filter_push(last, keep);
        lemma_filter_keeps_increasing_order(init, keep);
        let sub = init.filter(keep);
        assert forall|i: int| 0 <= i < sub.len() implies #[trigger] sub[i].order < last.order by {
            let m = choose|m: int| 0 <= m < init.len() && init[m] == sub[i];
            assert(s[m] == init[m]);
            assert(s[s.len() - 1] == last);
        }
        assert forall|i: int| 0 <= i < sub.len() implies exists|m: int|
            0 <= m < s.len() && s[m] == #[trigger] sub[i] by {
            let m = choose|m: int| 0 <= m < init.len() && init[m] == sub[i];
            assert(s[m] == init[m]);
        }
        if keep(last) {
            assert(s.filter(keep)[sub.len() as int] == s[s.len() - 1]);
        }
    }
}

/// Field completions are the offered fields, one item each, and they come
/// in increasing `order`: each schema's fields hold their positions as
/// their `order`, so the schema's list is its fields ordered by `order`.
pub proof fn law_field_completions_follow_field_order(
    entity_type: Seq<char>,
    existing_fields: Seq<&str>,
    schemas: Seq<EntitySchema>,
)
    requires
        forall|k: int| 0 <= k < schemas.len() ==> fields_in_order(#[trigger] schemas[k].spec_fields()),
    ensures
        field_completions(entity_type, existing_fields, schemas) == offered_fields(
            entity_type,
            existing_fields,
            schemas,
        ).map_values(|f: FieldSchema| field_item(f)),
        increasing_order(offered_fields(entity_type, existing_fields, schemas)),
{
    lemma_schema_index(schemas, entity_type, 0);
    match schema_index(schemas, entity_type, 0) {
        None => {
            assert(field_completions(entity_type, existing_fields, schemas) =~= offered_fields(
                entity_type,
                existing_fields,
                schemas,
            ).map_values(|f: FieldSchema| field_item(f)));
        },
        Some(k) => {
            let fields = schemas[k].spec_fields();
            assert(fields_in_order(fields));
            assert(increasing_order(fields));
            lemma_filter_keeps_increasing_order(
                fields,
                |f: FieldSchema| !names_contain(existing_fields, f.id@),
            );
        },
    }
}

/// Field completions never offer a field the entity already has.
pub proof fn law_existing_fields_not_offered(
    entity_type: Seq<char>,
    existing_fields: Seq<&str>,
    schemas: Seq<EntitySchema>,
)
    ensures
        forall|i: int|
            0 <= i < field_completions(entity_type, existing_fields, schemas).len() ==> !names_contain(
                existing_fields,
                (#[trigger] field_completions(entity_type, existing_fields, schemas)[i]).label,
            ),
{
    if let Some(k) = schema_index(schemas, entity_type, 0) {
        let keep = |f: FieldSchema| !names_contain(existing_fields, f.id@);
        let kept = schemas[k].spec_fields().filter(keep);
        assert forall|i: int| 0 <= i < kept.len() implies !names_contain(existing_fields, kept[i].id@) by {
            schemas[k].spec_fields().lemma_filter_pred(keep, i);
        }
    }
}

proof fn lemma_no_dot_bytes(t: Seq<char>)
    requires
        !t.contains('.'),
    ensures
        forall|i: int| 0 <= i < encode_utf8(t).len() ==> encode_utf8(t)[i] != 46u8,
    decreases t.len(),
{
    if t.len() > 0 {
        assert(!t.drop_first().contains('.')) by {
            if t.drop_first().contains('.') {
                let i = choose|i: int| 0 <= i < t.drop_first().len() && t.drop_first()[i] == '.';
                assert(t[i + 1] == '.');
            }
        }
        lemma_no_dot_bytes(t.drop_first());
        let v = t[0] as u32;
        assert(t[0] != '.');
        vstd::utf8::char_is_scalar(t[0]);
        vstd::utf8::char_u32_cast(t[0], v);
        assert(v != 46) by {
            if v == 46 {
                vstd::utf8::char_u32_cast('.', 46u32);
                assert(('.' as u32) == 46u32);
            }
        }
        let head = encode_scalar_bytes(v);
        assert forall|i: int| 0 <= i < head.len() implies head[i] != 46u8 by {
            lemma_scalar_has_no_dot(v, i);
        }
        assert forall|i: int| 0 <= i < encode_utf8(t).len() implies encode_utf8(t)[i] != 46u8 by {
            if i < head.len() {
                assert(encode_utf8(t)[i] == head[i]);
            } else {
                assert(encode_utf8(t)[i] == encode_utf8(t.drop_first())[i - head.len()]);
            }
        }
    }
}

spec fn encode_scalar_bytes(v: u32) -> Seq<u8> {
    vstd::utf8::encode_scalar(v)
}

proof fn lemma_scalar_has_no_dot(v: u32, i: int)
    requires
        v != 46,
        vstd::utf8::is_scalar(v),
        0 <= i < encode_scalar_bytes(v).len(),
    ensures
        encode_scalar_bytes(v)[i] != 46u8,
{
    let b = encode_scalar_bytes(v)[i];
    if v <= 0x7f {
        assert((v & 0x7f) as u8 != 46u8) by (bit_vector)
            requires
                v <= 0x7f,
                v != 46,
        ;
    } else {
        assert(forall|x: u8| #![auto] (0x80u8 | x) != 46u8) by (bit_vector);
        assert(forall|x: u8| #![auto] (0xC0u8 | x) != 46u8) by (bit_vector);
        assert(forall|x: u8| #![auto] (0xE0u8 | x) != 46u8) by (bit_vector);
        assert(forall|x: u8| #![auto] (0xF0u8 | x) != 46u8) by (bit_vector);
    }
}

proof fn lemma_find_first(s: Seq<u8>, c: u8, i: int, k: int)
    requires
        0 <= i <= k < s.len(),
        s[k] == c,
        forall|m: int| i <= m < k ==> s[m] != c,
    ensures
        find_byte_from(s, c, i) == Some(k),
    decreases k - i,
{
    if i < k {
        lemma_find_first(s, c, i + 1, k);
    }
}

/// Taking the ID part of a composite ID gives back the ID it was composed
/// of, when the entity type holds no dot.
pub proof fn law_id_part_undoes_compose(entity_type: Seq<char>, entity_id: Seq<char>)
    requires
        !entity_type.contains('.'),
    ensures
        decode_utf8(id_part(encode_utf8(composite_id(entity_type, entity_id)))) == entity_id,
{
    reveal_strlit(".");
    let dot = "."@;
    assert(dot =~= seq!['.']);
    lemma_encode_concat(entity_type, dot);
    lemma_encode_concat(entity_type + dot, entity_id);
    lemma_encode_ascii_char('.');
    lemma_no_dot_bytes(entity_type);
    let t = encode_utf8(entity_type);
    let whole = encode_utf8(composite_id(entity_type, entity_id));
    assert(whole =~= t + seq![46u8] + encode_utf8(entity_id));
    lemma_find_first(whole, 46u8, 0, t.len() as int);
    assert(id_part(whole) =~= encode_utf8(entity_id));
    encode_utf8_decode_utf8(entity_id);
}

/// Field completions offer exactly the fields of the entity type's schema
/// that the entity does not have yet, whatever their type: each such field
/// gets its item, and every item is that of such a field. Without a schema
/// for the type there are none.
pub proof fn law_field_completions_offer_missing_fields(
    entity_type: Seq<char>,
    existing_fields: Seq<&str>,
    schemas: Seq<EntitySchema>,
)
    ensures
        schema_index(schemas, entity_type, 0) is None ==> field_completions(
            entity_type,
            existing_fields,
            schemas,
        ).len() == 0,
        schema_index(schemas, entity_type, 0) matches Some(k) ==> {
            &&& schemas[k].spec_entity_type() == entity_type
            &&& forall|j: int|
                0 <= j < schemas[k].spec_fields().len() && !names_contain(
                    existing_fields,
                    (#[trigger] schemas[k].spec_fields()[j]).id@,
                ) ==> field_completions(entity_type, existing_fields, schemas).contains(
                    field_item(schemas[k].spec_fields()[j]),
                )
            &&& forall|v: ItemView|
                #[trigger] field_completions(entity_type, existing_fields, schemas).contains(v)
                    ==> exists|j: int|
                    0 <= j < schemas[k].spec_fields().len() && !names_contain(
                        existing_fields,
                        (#[trigger] schemas[k].spec_fields()[j]).id@,
                    ) && v == field_item(schemas[k].spec_fields()[j])
        },
{
    lemma_schema_index(schemas, entity_type, 0);
    if let Some(k) = schema_index(schemas, entity_type, 0) {
        let fields = schemas[k].spec_fields();
        let keep = |f: FieldSchema| !names_contain(existing_fields, f.id@);
        let mk = |f: FieldSchema| field_item(f);
        let kept = fields.filter(keep);
        let items = field_completions(entity_type, existing_fields, schemas);
        assert(items == kept.map_values(mk));
        assert forall|j: int|
            0 <= j < fields.len() && !names_contain(existing_fields, (#[trigger] fields[j]).id@)
                implies items.contains(field_item(fields[j])) by {
            fields.lemma_filter_contains(keep, j);
            let m = choose|m: int| 0 <= m < kept.len() && kept[m] == fields[j];
            assert(items[m] == field_item(fields[j]));
        }
        assert forall|v: ItemView| #[trigger] items.contains(v) implies exists|j: int|
            0 <= j < fields.len() && !names_contain(existing_fields, (#[trigger] fields[j]).id@)
                && v == field_item(fields[j]) by {
            let m = choose|m: int| 0 <= m < items.len() && items[m] == v;
            assert(kept.contains(kept[m]));
            fields.lemma_filter_contains_rev(keep, kept[m]);
            fields.lemma_filter_pred(keep, m);
            let j = choose|j: int| 0 <= j < fields.len() && fields[j] == kept[m];
            assert(keep(fields[j]));
        }
    }
}

/// With no dot typed, every entity type that the typed text begins (the
/// type may equal it) is offered, as the type followed by a dot, and every
/// item offered is such a type.
pub proof fn law_types_with_typed_prefix_are_offered(
    prefix: Seq<u8>,
    entities: Seq<Entity>,
    r: Seq<ItemView>,
)
    requires
        reference_completions(prefix, entities, r),
        count_byte(prefix, 46u8) == 0,
    ensures
        forall|i: int, rest: Seq<u8>|
            #![trigger entities[i], prefix + rest]
            0 <= i < entities.len() && encode_utf8(entities[i].entity_type@) == prefix + rest
                ==> r.contains(type_item(entities[i].entity_type@)),
        forall|v: ItemView|
            #[trigger] r.contains(v) ==> exists|i: int|
                0 <= i < entities.len() && prefix.len() <= encode_utf8(
                    (#[trigger] entities[i]).entity_type@,
                ).len() && encode_utf8(entities[i].entity_type@) == prefix + encode_utf8(
                    entities[i].entity_type@,
                ).subrange(prefix.len() as int, encode_utf8(entities[i].entity_type@).len() as int)
                    && v == type_item(entities[i].entity_type@),
{
    assert forall|i: int, rest: Seq<u8>|
        #![trigger entities[i], prefix + rest]
        0 <= i < entities.len() && encode_utf8(entities[i].entity_type@) == prefix + rest
            implies r.contains(type_item(entities[i].entity_type@)) by {
        let t = encode_utf8(entities[i].entity_type@);
        assert(t.subrange(0, prefix.len() as int) =~= prefix);
        assert(type_offered(entities[i], prefix));
    }
    assert forall|v: ItemView| #[trigger] r.contains(v) implies exists|i: int|
        0 <= i < entities.len() && prefix.len() <= encode_utf8(
            (#[trigger] entities[i]).entity_type@,
        ).len() && encode_utf8(entities[i].entity_type@) == prefix + encode_utf8(
            entities[i].entity_type@,
        ).subrange(prefix.len() as int, encode_utf8(entities[i].entity_type@).len() as int) && v
            == type_item(entities[i].entity_type@) by {
        let i = choose|i: int|
            0 <= i < entities.len() && type_offered(#[trigger] entities[i], prefix) && v
                == type_item(entities[i].entity_type@);
        let t = encode_utf8(entities[i].entity_type@);
        assert(t =~= prefix + t.subrange(prefix.len() as int, t.len() as int));
    }
}

} // verus!
