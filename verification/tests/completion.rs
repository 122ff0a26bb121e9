//! Completions for field names, references and enum values.

use firm_lang::completion::{
    complete_enum_values, complete_field_names, complete_references, decompose_entity_id,
    CompletionItemKind, Entity, EntitySchema, FieldType,
};

fn test_schemas() -> Vec<EntitySchema> {
    let schema = EntitySchema::new("contact")
        .with_required_field("name", FieldType::String)
        .with_required_field("email", FieldType::String)
        .with_optional_field("phone", FieldType::String)
        .with_optional_field("notes", FieldType::String);
    vec![schema]
}

fn test_entities() -> Vec<Entity> {
    vec![
        Entity::new("contact.jane_doe", "contact").with_field("name", FieldType::String),
        Entity::new("contact.john_doe", "contact").with_field("name", FieldType::String),
        Entity::new("project.website", "project").with_field("title", FieldType::String),
    ]
}

#[test]
fn test_field_completions_required_before_optional() {
    let schemas = test_schemas();
    let items = complete_field_names("contact", &[], &schemas);

    assert_eq!(items.len(), 4);
    // Required fields should sort before optional
    assert!(items[0].sort_text.as_ref().unwrap().starts_with("0_"));
    assert!(items[1].sort_text.as_ref().unwrap().starts_with("0_"));
    assert!(items[2].sort_text.as_ref().unwrap().starts_with("1_"));
    assert!(items[3].sort_text.as_ref().unwrap().starts_with("1_"));
}

#[test]
fn test_field_completions_exclude_existing() {
    let schemas = test_schemas();
    let items = complete_field_names("contact", &["name", "email"], &schemas);

    assert_eq!(items.len(), 2);
    let labels: Vec<&str> = items.iter().map(|i| i.label.as_str()).collect();
    assert!(labels.contains(&"phone"));
    assert!(labels.contains(&"notes"));
    assert!(!labels.contains(&"name"));
}

#[test]
fn test_field_completions_insert_text_has_equals() {
    let schemas = test_schemas();
    let items = complete_field_names("contact", &[], &schemas);

    for item in &items {
        assert!(item.insert_text.as_ref().unwrap().ends_with(" = "));
    }
}

#[test]
fn test_field_completions_detail_shows_mode_and_type() {
    let schemas = test_schemas();
    let items = complete_field_names("contact", &[], &schemas);

    let name_item = items.iter().find(|i| i.label == "name").unwrap();
    assert_eq!(name_item.detail.as_ref().unwrap(), "required, String");

    let phone_item = items.iter().find(|i| i.label == "phone").unwrap();
    assert_eq!(phone_item.detail.as_ref().unwrap(), "optional, String");
}

#[test]
fn test_field_completions_unknown_schema_returns_empty() {
    let schemas = test_schemas();
    let items = complete_field_names("nonexistent", &[], &schemas);
    assert!(items.is_empty());
}

#[test]
fn test_reference_completions_type_dot_returns_ids_only() {
    let entities = test_entities();
    let items = complete_references("contact.", &entities);

    assert_eq!(items.len(), 2);
    let labels: Vec<&str> = items.iter().map(|i| i.label.as_str()).collect();
    // Labels should be just the ID, not type.id
    assert!(labels.contains(&"jane_doe"));
    assert!(labels.contains(&"john_doe"));
}

#[test]
fn test_reference_completions_type_dot_partial_filters() {
    let entities = test_entities();
    let items = complete_references("contact.ja", &entities);

    assert_eq!(items.len(), 1);
    assert_eq!(items[0].label, "jane_doe");
}

#[test]
fn test_reference_completions_empty_prefix_suggests_types() {
    let entities = test_entities();
    let items = complete_references("", &entities);

    let labels: Vec<&str> = items.iter().map(|i| i.label.as_str()).collect();
    assert!(labels.contains(&"contact."));
    assert!(labels.contains(&"project."));
}

#[test]
fn test_reference_completions_partial_type_filters() {
    let entities = test_entities();
    let items = complete_references("con", &entities);

    assert_eq!(items.len(), 1);
    assert_eq!(items[0].label, "contact.");
}

#[test]
fn test_reference_completions_unknown_type_returns_empty() {
    let entities = test_entities();
    let items = complete_references("unknown.", &entities);

    assert!(items.is_empty());
}

#[test]
fn test_reference_completions_field_suggestions() {
    let entities = test_entities();
    let items = complete_references("contact.jane_doe.", &entities);

    assert_eq!(items.len(), 1);
    assert_eq!(items[0].label, "name");
    assert_eq!(items[0].detail.as_ref().unwrap(), "String");
}

#[test]
fn test_reference_completions_field_partial_filters() {
    let entities = vec![
        Entity::new("contact.jane_doe", "contact")
            .with_field("name", FieldType::String)
            .with_field("notes", FieldType::String),
    ];
    let items = complete_references("contact.jane_doe.na", &entities);

    assert_eq!(items.len(), 1);
    assert_eq!(items[0].label, "name");
}

#[test]
fn test_reference_completions_field_unknown_entity_returns_empty() {
    let entities = test_entities();
    let items = complete_references("contact.nobody.", &entities);

    assert!(items.is_empty());
}

fn test_schemas_with_enum() -> Vec<EntitySchema> {
    let mut schemas = test_schemas();
    let schema = EntitySchema::new("project")
        .with_required_field("title", FieldType::String)
        .with_required_enum(
            "status",
            vec!["active".to_string(), "completed".to_string(), "on_hold".to_string()],
        )
        .with_optional_field("notes", FieldType::String);
    schemas.push(schema);
    schemas
}

#[test]
fn test_enum_completions_returns_allowed_values() {
    let schemas = test_schemas_with_enum();
    let items = complete_enum_values("project", "status", &schemas);

    assert_eq!(items.len(), 3);
    let labels: Vec<&str> = items.iter().map(|i| i.label.as_str()).collect();
    assert!(labels.contains(&"active"));
    assert!(labels.contains(&"completed"));
    assert!(labels.contains(&"on_hold"));
}

#[test]
fn test_enum_completions_preserves_order() {
    let schemas = test_schemas_with_enum();
    let items = complete_enum_values("project", "status", &schemas);

    assert_eq!(items[0].label, "active");
    assert_eq!(items[1].label, "completed");
    assert_eq!(items[2].label, "on_hold");
}

#[test]
fn test_enum_completions_non_enum_field_returns_empty() {
    let schemas = test_schemas_with_enum();
    let items = complete_enum_values("project", "title", &schemas);

    assert!(items.is_empty());
}

#[test]
fn test_enum_completions_unknown_field_returns_empty() {
    let schemas = test_schemas_with_enum();
    let items = complete_enum_values("project", "nonexistent", &schemas);

    assert!(items.is_empty());
}

#[test]
fn test_enum_completions_unknown_type_returns_empty() {
    let schemas = test_schemas_with_enum();
    let items = complete_enum_values("unknown", "status", &schemas);

    assert!(items.is_empty());
}

#[test]
fn test_enum_completions_kind_is_enum_member() {
    let schemas = test_schemas_with_enum();
    let items = complete_enum_values("project", "status", &schemas);

    for item in &items {
        assert_eq!(item.kind, Some(CompletionItemKind::EnumMember));
    }
}

#[test]
fn field_completion_items_are_exact() {
    let schemas = test_schemas();
    let items = complete_field_names("contact", &["email"], &schemas);
    let labels: Vec<&str> = items.iter().map(|i| i.label.as_str()).collect();
    assert_eq!(labels, vec!["name", "phone", "notes"]);
    assert_eq!(items[0].sort_text.as_deref(), Some("0_0000_name"));
    assert_eq!(items[1].sort_text.as_deref(), Some("1_0002_phone"));
    assert_eq!(items[0].insert_text.as_deref(), Some("name = "));
    assert_eq!(items[0].kind, Some(CompletionItemKind::Field));
    assert_eq!(items[0].filter_text, None);
}

#[test]
fn enum_completion_sort_text_is_padded_index() {
    let schemas = test_schemas_with_enum();
    let items = complete_enum_values("project", "status", &schemas);
    assert_eq!(items[2].sort_text.as_deref(), Some("0002_on_hold"));
    assert_eq!(items[0].detail.as_deref(), Some("status value"));
}

#[test]
fn type_completions_are_sorted_and_distinct() {
    let entities = vec![
        Entity::new("project.b", "project"),
        Entity::new("contact.a", "contact"),
        Entity::new("project.a", "project"),
    ];
    let items = complete_references("", &entities);
    let labels: Vec<&str> = items.iter().map(|i| i.label.as_str()).collect();
    assert_eq!(labels, vec!["contact.", "project."]);
    assert_eq!(items[0].kind, Some(CompletionItemKind::Module));
    assert_eq!(items[0].detail.as_deref(), Some("entity type"));
    assert_eq!(items[0].insert_text.as_deref(), Some("contact."));
}

#[test]
fn id_completions_are_sorted() {
    let entities = vec![
        Entity::new("contact.zed", "contact"),
        Entity::new("contact.amy", "contact"),
        Entity::new("contact.bob", "contact"),
    ];
    let items = complete_references("contact.", &entities);
    let labels: Vec<&str> = items.iter().map(|i| i.label.as_str()).collect();
    assert_eq!(labels, vec!["amy", "bob", "zed"]);
    assert_eq!(items[0].kind, Some(CompletionItemKind::Reference));
    assert_eq!(items[0].detail.as_deref(), Some("contact"));
    assert_eq!(items[0].filter_text.as_deref(), Some("amy"));
}

#[test]
fn field_reference_completions_are_sorted_with_types() {
    let entities = vec![
        Entity::new("project.site", "project")
            .with_field("title", FieldType::String)
            .with_field("budget", FieldType::Currency),
    ];
    let items = complete_references("project.site.", &entities);
    let labels: Vec<&str> = items.iter().map(|i| i.label.as_str()).collect();
    assert_eq!(labels, vec!["budget", "title"]);
    assert_eq!(items[0].detail.as_deref(), Some("Currency"));
}

#[test]
fn three_dots_give_nothing() {
    let entities = test_entities();
    assert!(complete_references("contact.jane_doe.name.", &entities).is_empty());
}

#[test]
fn decompose_takes_part_after_first_dot() {
    assert_eq!(decompose_entity_id("contact.jane_doe"), "jane_doe");
    assert_eq!(decompose_entity_id("a.b.c"), "b.c");
    assert_eq!(decompose_entity_id("plain"), "plain");
}

#[test]
fn schema_field_order_is_position() {
    let schema = EntitySchema::new("contact")
        .with_required_field("name", FieldType::String)
        .with_optional_field("phone", FieldType::String)
        .with_required_field("email", FieldType::String);
    assert_eq!(schema.entity_type(), "contact");
    let fields = schema.fields();
    assert_eq!(fields.len(), 3);
    for (i, f) in fields.iter().enumerate() {
        assert_eq!(f.order, i);
    }
    assert_eq!(fields[2].id, "email");

    let items = complete_field_names("contact", &[], &vec![schema]);
    let sort_texts: Vec<String> = items.iter().map(|i| i.sort_text.clone().unwrap()).collect();
    assert_eq!(sort_texts, vec!["0_0000_name", "1_0001_phone", "0_0002_email"]);
}
