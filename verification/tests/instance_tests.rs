use hound_cast::errors::AttributeError;
use hound_cast::instance::InstanceAttributes;
use hound_cast::instance::InstanceObjectBuilder;
use hound_cast::meta::MetaAttributes;
use hound_cast::meta::MetaObject;
use hound_cast::unique_id::Identifier;

#[test]
fn instance_entities_test_success_parse_text() {
    let output = InstanceAttributes::parse_text(Some("test"));
    assert_eq!(output, Ok(InstanceAttributes::Text(Some("test".to_string()))));
}

#[test]
fn instance_entities_test_success_parse_text_none() {
    let output = InstanceAttributes::parse_text(None);
    assert_eq!(output, Ok(InstanceAttributes::Text(None)));
}

#[test]
fn instance_entities_test_success_parse_i16() {
    let output = InstanceAttributes::parse_i16(Some("33"));
    assert_eq!(output, Ok(InstanceAttributes::I16(Some(33))));
}

#[test]
fn instance_entities_test_success_parse_i16_none() {
    let output = InstanceAttributes::parse_i16(None);
    assert_eq!(output, Ok(InstanceAttributes::I16(None)));
}

#[test]
fn instance_entities_test_success_parse_i16_failed() {
    let output = InstanceAttributes::parse_i16(Some("failed"));
    assert_eq!(output, Err(AttributeError::InvalidType("Expect i16 got failed".to_string())));
}

#[test]
fn instance_entities_test_parse_i16_none() {
    let result = InstanceAttributes::parse_i16(None);
    assert_eq!(result, Ok(InstanceAttributes::I16(None)));
}

#[test]
fn instance_test_success_parse_text() {
    let output = InstanceAttributes::parse_text(Some("test"));
    assert_eq!(output, Ok(InstanceAttributes::Text(Some("test".to_string()))));
}

#[test]
fn instance_test_success_parse_text_none() {
    let output = InstanceAttributes::parse_text(None);
    assert_eq!(output, Ok(InstanceAttributes::Text(None)));
}

#[test]
fn instance_test_success_parse_i16() {
    let output = InstanceAttributes::parse_i16(Some("33"));
    assert_eq!(output, Ok(InstanceAttributes::I16(Some(33))));
}

#[test]
fn instance_test_success_parse_i16_none() {
    let output = InstanceAttributes::parse_i16(None);
    assert_eq!(output, Ok(InstanceAttributes::I16(None)));
}

#[test]
fn instance_test_success_parse_i16_failed() {
    let output = InstanceAttributes::parse_i16(Some("failed"));
    assert_eq!(output, Err(AttributeError::InvalidType("Expect i16 got failed".to_string())));
}

#[test]
fn instance_test_parse_i16_none() {
    let result = InstanceAttributes::parse_i16(None);
    assert_eq!(result, Ok(InstanceAttributes::I16(None)));
}

#[test]
fn test_instance_object_creation() {
    let mut meta_object = MetaObject::new_meta("TestMeta").unwrap();
    meta_object.update_entity("attribute1", MetaAttributes::Text);
    meta_object.update_entity("attribute2", MetaAttributes::I16);

    let mut instance_builder = InstanceObjectBuilder::new(&meta_object, "TestInstance");

    instance_builder.update_entity("attribute1", Some("value1")).unwrap();
    instance_builder.update_entity("attribute2", Some("123")).unwrap();
    instance_builder.populate_missing_meta_entites();

    let instance_object = instance_builder.build().unwrap();

    assert_eq!(instance_object.name, "TestInstance");
    assert!(instance_object.id.get_id().as_str().starts_with("instance"));
    assert_eq!(
        instance_object.get_meta_id().as_ref().unwrap().get_id(),
        meta_object.get_object_id().get_id()
    );
}

#[test]
fn test_update_entity_failed() {
    let meta_object = MetaObject::new_meta("TestMeta").unwrap();

    let mut instance_builder = InstanceObjectBuilder::new(&meta_object, "TestInstance");

    let output = instance_builder.update_entity("attribute1", Some("test_value"));

    assert_eq!(output, Err(AttributeError::NonMatchingType("tt".to_string())));
}

#[test]
fn test_missing_meta_entities_population() {
    let mut meta_object = MetaObject::new_meta("TestMeta").unwrap();
    meta_object.update_entity("mandatory", MetaAttributes::Text);

    let mut instance_builder = InstanceObjectBuilder::new(&meta_object, "TestInstance");
    instance_builder.populate_missing_meta_entites();

    let instance_object = instance_builder.build().unwrap();
    assert!(instance_object.entities.contains_key("mandatory"));
    assert_eq!(
        instance_object.entities.get("mandatory").unwrap().get_attribute(),
        &InstanceAttributes::Text(None)
    );
}

#[test]
fn test_build_instance_object() {
    let mut meta_object = MetaObject::new_meta("TestMeta").unwrap();
    meta_object.update_entity("attr1", MetaAttributes::Text);
    meta_object.update_entity("attr2", MetaAttributes::I16);

    let mut instance_builder = InstanceObjectBuilder::new(&meta_object, "TestInstance");
    instance_builder.update_entity("attr1", Some("example_value")).unwrap();
    instance_builder.update_entity("attr2", Some("56")).unwrap();

    let instance_object = instance_builder.build().unwrap();
    assert_eq!(instance_object.name, "TestInstance");
    assert!(instance_object.id.get_id().as_str().starts_with("instance"));
}

#[test]
fn test_invalid_update_entity() {
    let mut meta_object = MetaObject::new_meta("TestMeta").unwrap();
    meta_object.update_entity("attr1", MetaAttributes::Text);

    let mut instance_builder = InstanceObjectBuilder::new(&meta_object, "TestInstance");
    let result = instance_builder.update_entity("attr1", Some("wrong_format"));

    assert!(result.is_ok());

    let invalid_result = instance_builder.update_entity("attr2", Some("wrong_type"));
    assert!(invalid_result.is_err());
}

#[test]
fn instance_test_update_entity_failed() {
    let meta_object = MetaObject::new_meta("TestMeta").unwrap();

    let mut instance_builder = InstanceObjectBuilder::new(&meta_object, "TestInstance");

    let output = instance_builder.update_entity("attribute1", Some("test_value"));

    assert_eq!(output, Err(AttributeError::NonMatchingType("tt".to_string())));
}

#[test]
fn instance_test_missing_meta_entities_population() {
    let mut meta_object = MetaObject::new_meta("TestMeta").unwrap();
    meta_object.update_entity("mandatory", MetaAttributes::Text);

    let mut instance_builder = InstanceObjectBuilder::new(&meta_object, "TestInstance");
    instance_builder.populate_missing_meta_entites();

    let instance_object = instance_builder.build().unwrap();
    assert!(instance_object.entities.contains_key("mandatory"));
    assert_eq!(
        instance_object.entities.get("mandatory").unwrap().get_attribute(),
        &InstanceAttributes::Text(None)
    );
}

#[test]
fn instance_test_invalid_update_entity() {
    let mut meta_object = MetaObject::new_meta("TestMeta").unwrap();
    meta_object.update_entity("attr1", MetaAttributes::Text);

    let mut instance_builder = InstanceObjectBuilder::new(&meta_object, "TestInstance");
    let result = instance_builder.update_entity("attr1", Some("wrong_format"));

    assert!(result.is_ok());

    let invalid_result = instance_builder.update_entity("attr2", Some("wrong_type"));
    assert!(invalid_result.is_err());
}

#[test]
fn test_populate_missing_twice_is_identical() {
    let mut meta_object = MetaObject::new_meta("TestMeta").unwrap();
    meta_object.update_entity("a", MetaAttributes::Text);
    meta_object.update_entity("b", MetaAttributes::I16);

    let mut once = InstanceObjectBuilder::new(&meta_object, "One");
    once.update_entity("a", Some("set")).unwrap();
    once.populate_missing_meta_entites();

    let mut twice = InstanceObjectBuilder::new(&meta_object, "Two");
    twice.update_entity("a", Some("set")).unwrap();
    twice.populate_missing_meta_entites();
    twice.populate_missing_meta_entites();

    assert_eq!(once.instance_entities.len(), twice.instance_entities.len());
    for name in ["a", "b"] {
        assert_eq!(
            once.instance_entities.get(name).unwrap().get_attribute(),
            twice.instance_entities.get(name).unwrap().get_attribute()
        );
    }
}

#[test]
fn test_failed_update_adds_no_entity() {
    let meta_object = MetaObject::new_meta("TestMeta").unwrap();

    let mut builder = InstanceObjectBuilder::new(&meta_object, "TestInstance");
    let result = builder.update_entity("ghostly", Some("x"));
    assert!(matches!(result, Err(AttributeError::NonMatchingType(_))));

    let instance_object = builder.build().unwrap();
    assert!(!instance_object.entities.contains_key("ghostly"));
    assert!(instance_object.entities.is_empty());
}

#[test]
fn test_parse_i16_bounds() {
    assert_eq!(
        InstanceAttributes::parse_i16(Some("32767")),
        Ok(InstanceAttributes::I16(Some(32767)))
    );
    assert_eq!(
        InstanceAttributes::parse_i16(Some("-32768")),
        Ok(InstanceAttributes::I16(Some(-32768)))
    );
    assert_eq!(
        InstanceAttributes::parse_i16(Some("+7")),
        Ok(InstanceAttributes::I16(Some(7)))
    );
    assert_eq!(
        InstanceAttributes::parse_i16(Some("32768")),
        Err(AttributeError::InvalidType("Expect i16 got 32768".to_string()))
    );
    assert_eq!(
        InstanceAttributes::parse_i16(Some("")),
        Err(AttributeError::InvalidType("Expect i16 got ".to_string()))
    );
    assert_eq!(
        InstanceAttributes::parse_i16(Some("99999999999999999999")),
        Err(AttributeError::InvalidType("Expect i16 got 99999999999999999999".to_string()))
    );
}

#[test]
fn test_display_string_rendering() {
    assert_eq!(InstanceAttributes::I16(Some(123)).display_string(), "123");
    assert_eq!(InstanceAttributes::I16(Some(-45)).display_string(), "-45");
    assert_eq!(InstanceAttributes::I16(None).display_string(), "Null");
    assert_eq!(InstanceAttributes::Text(Some("hi".to_string())).display_string(), "hi");
    assert_eq!(InstanceAttributes::Text(None).display_string(), "Null");
}
