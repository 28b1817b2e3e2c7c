use hound_cast::errors::AttributeError;
use hound_cast::instance::InstanceAttributes;
use hound_cast::meta::MetaAttributes;
use hound_cast::meta::MetaObject;
use hound_cast::unique_id::Identifier;

#[test]
fn meta_test_parse_attribute_text_success() {
    let meta_attr = MetaAttributes::Text;
    let result = meta_attr.parse_attribute(Some("example text"));
    assert_eq!(result, Ok(InstanceAttributes::Text(Some("example text".to_string()))));
}

#[test]
fn meta_test_parse_attribute_text_none() {
    let meta_attr = MetaAttributes::Text;
    let result = meta_attr.parse_attribute(None);
    assert_eq!(result, Ok(InstanceAttributes::Text(None)));
}

#[test]
fn meta_test_parse_attribute_i16_success() {
    let meta_attr = MetaAttributes::I16;
    let result = meta_attr.parse_attribute(Some("123"));
    assert_eq!(result, Ok(InstanceAttributes::I16(Some(123))));
}

#[test]
fn meta_test_parse_attribute_i16_invalid() {
    let meta_attr = MetaAttributes::I16;
    let result = meta_attr.parse_attribute(Some("not a number"));
    assert_eq!(
        result,
        Err(AttributeError::InvalidType("Expect i16 got not a number".to_string()))
    );
}

#[test]
fn meta_test_insert_none_for_type_text() {
    let meta_attr = MetaAttributes::Text;
    let result = meta_attr.insert_none_for_type();
    assert_eq!(result, InstanceAttributes::Text(None));
}

#[test]
fn meta_test_insert_none_for_type_i16() {
    let meta_attr = MetaAttributes::I16;
    let result = meta_attr.insert_none_for_type();
    assert_eq!(result, InstanceAttributes::I16(None));
}

#[test]
fn meta_entity_test_parse_attribute_text_success() {
    let meta_attr = MetaAttributes::Text;
    let result = meta_attr.parse_attribute(Some("example text"));
    assert_eq!(result, Ok(InstanceAttributes::Text(Some("example text".to_string()))));
}

#[test]
fn meta_entity_test_parse_attribute_text_none() {
    let meta_attr = MetaAttributes::Text;
    let result = meta_attr.parse_attribute(None);
    assert_eq!(result, Ok(InstanceAttributes::Text(None)));
}

#[test]
fn meta_entity_test_parse_attribute_i16_success() {
    let meta_attr = MetaAttributes::I16;
    let result = meta_attr.parse_attribute(Some("123"));
    assert_eq!(result, Ok(InstanceAttributes::I16(Some(123))));
}

#[test]
fn meta_entity_test_parse_attribute_i16_invalid() {
    let meta_attr = MetaAttributes::I16;
    let result = meta_attr.parse_attribute(Some("not a number"));
    assert_eq!(
        result,
        Err(AttributeError::InvalidType("Expect i16 got not a number".to_string()))
    );
}

#[test]
fn meta_entity_test_insert_none_for_type_text() {
    let meta_attr = MetaAttributes::Text;
    let result = meta_attr.insert_none_for_type();
    assert_eq!(result, InstanceAttributes::Text(None));
}

#[test]
fn meta_entity_test_insert_none_for_type_i16() {
    let meta_attr = MetaAttributes::I16;
    let result = meta_attr.insert_none_for_type();
    assert_eq!(result, InstanceAttributes::I16(None));
}

#[test]
fn test_new_meta_object_creation() {
    let meta_object = MetaObject::new_meta("TestMetaObject").unwrap();

    assert_eq!(meta_object.name, "TestMetaObject");
    assert!(meta_object.entities.is_empty());
    assert!(meta_object.id.get_id().as_str().starts_with("meta"));
}

#[test]
fn test_update_multiple_meta_entities() {
    let mut meta_object = MetaObject::new_meta("TestMetaObject").unwrap();
    meta_object.update_entity("attribute1", MetaAttributes::Text);
    meta_object.update_entity("attribute2", MetaAttributes::I16);

    assert_eq!(meta_object.entities.len(), 2);
    assert!(meta_object.entities.contains_key("attribute1"));
    assert!(meta_object.entities.contains_key("attribute2"));
}

#[test]
fn meta_test_update_multiple_meta_entities() {
    let mut meta_object = MetaObject::new_meta("TestMetaObject").unwrap();
    meta_object.update_entity("attribute1", MetaAttributes::Text);
    meta_object.update_entity("attribute2", MetaAttributes::I16);

    assert_eq!(meta_object.entities.len(), 2);
    assert!(meta_object.entities.contains_key("attribute1"));
    assert!(meta_object.entities.contains_key("attribute2"));
}

#[test]
fn test_update_entity_replaces_by_name() {
    let mut meta_object = MetaObject::new_meta("TestMetaObject").unwrap();
    meta_object.update_entity("attribute1", MetaAttributes::Text);
    meta_object.update_entity("attribute1", MetaAttributes::I16);

    assert_eq!(meta_object.entities.len(), 1);
    let e = meta_object.entities.get("attribute1").unwrap();
    assert!(matches!(e.get_attribute(), MetaAttributes::I16));
}

#[test]
fn test_clone_and_update_overrides() {
    let mut meta_object = MetaObject::new_meta("TestMetaObject").unwrap();
    meta_object.update_entity("a", MetaAttributes::Text);
    meta_object.update_entity("b", MetaAttributes::Text);

    let modif = vec![("b".to_string(), MetaAttributes::I16)];
    let updated = meta_object.clone_and_update(modif);

    // the receiver is unchanged
    assert!(matches!(
        meta_object.entities.get("b").unwrap().get_attribute(),
        MetaAttributes::Text
    ));
    // the copy carries the override and the untouched entity
    assert!(matches!(updated.entities.get("b").unwrap().get_attribute(), MetaAttributes::I16));
    assert!(matches!(updated.entities.get("a").unwrap().get_attribute(), MetaAttributes::Text));
    assert_eq!(updated.get_name(), meta_object.get_name());
}

#[test]
fn meta_object_test_new_meta_object_creation() {
    let meta_object = MetaObject::new_meta("TestMetaObject").unwrap();

    assert_eq!(meta_object.name, "TestMetaObject");
    assert!(meta_object.entities.is_empty());
    assert!(meta_object.id.get_id().as_str().starts_with("meta"));
}

#[test]
fn meta_object_test_update_multiple_meta_entities() {
    let mut meta_object = MetaObject::new_meta("TestMetaObject").unwrap();
    meta_object.update_entity("attribute1", MetaAttributes::Text);
    meta_object.update_entity("attribute2", MetaAttributes::I16);

    assert_eq!(meta_object.entities.len(), 2);
    assert!(meta_object.entities.contains_key("attribute1"));
    assert!(meta_object.entities.contains_key("attribute2"));
}
