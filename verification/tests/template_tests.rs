use hound_cast::errors::TemplateError;
use hound_cast::instance::InstanceAttributes;
use hound_cast::instance::InstanceObjectBuilder;
use hound_cast::meta::MetaAttributes;
use hound_cast::meta::MetaObject;
use hound_cast::object::Object;
use hound_cast::template::Template;
use hound_cast::template_builder::TemplateBuilder;
use hound_cast::template_content::TemplateContent;

#[test]
fn valid_template_creation() {
    // Test case for successful template creation and population.
    let mut meta_object = MetaObject::new_meta("TestMeta").unwrap();
    meta_object.update_entity("attribute1", MetaAttributes::Text);
    meta_object.update_entity("attribute2", MetaAttributes::I16);

    let mut instance_builder = InstanceObjectBuilder::new(&meta_object, "TestInstance");
    instance_builder.update_entity("attribute1", Some("value1")).unwrap();
    instance_builder.update_entity("attribute2", Some("123")).unwrap();
    let instance_object = instance_builder.build().unwrap();

    let content = "This is a test with [@attribute1] and [@attribute2]";
    let template = TemplateBuilder::instanciate(content, &meta_object).build().unwrap();
    let populated_content = template.build_from_instance(&instance_object).unwrap();

    assert_eq!(populated_content, "This is a test with value1 and 123");
}

#[test]
fn fail_template_creation_non_matching_entities() {
    // Test case for missing entities.
    let mut meta_object = MetaObject::new_meta("TestMeta").unwrap();
    meta_object.update_entity("attribute1", MetaAttributes::Text);
    meta_object.update_entity("attribute2", MetaAttributes::I16);

    let content = "This is a test with [@attribute1]";
    let template_result = TemplateBuilder::instanciate(content, &meta_object).build();

    assert!(matches!(
        template_result.unwrap_err(),
        TemplateError::MissingEntitiesFromMetaObject(_)
    ));
}

#[test]
fn test_build_succeeds_with_exactly_matching_placeholders() {
    let mut meta_object = MetaObject::new_meta("Marathon").unwrap();
    meta_object.update_entity("prize", MetaAttributes::I16);
    meta_object.update_entity("ref_link", MetaAttributes::Text);

    let ok = TemplateBuilder::instanciate("[@prize] [@ref_link]", &meta_object).build();
    assert!(ok.is_ok());

    let err = TemplateBuilder::instanciate("[@prize]", &meta_object).build();
    match err {
        Err(TemplateError::MissingEntitiesFromMetaObject(names)) => {
            assert_eq!(names, vec!["ref_link".to_string()]);
        },
        other => panic!("expected MissingEntitiesFromMetaObject, got {:?}", other),
    }
}

#[test]
fn test_build_fails_on_undeclared_placeholder() {
    let mut meta_object = MetaObject::new_meta("TestMeta").unwrap();
    meta_object.update_entity("a", MetaAttributes::Text);

    // placeholder set is a strict superset of the attribute set: the
    // difference reported the other way round is empty, but it still fails
    let result = TemplateBuilder::instanciate("[@a] [@b]", &meta_object).build();
    match result {
        Err(TemplateError::MissingEntitiesFromMetaObject(names)) => {
            assert!(names.is_empty());
        },
        other => panic!("expected MissingEntitiesFromMetaObject, got {:?}", other),
    }
}

#[test]
fn test_unauthorized_instance_rendering() {
    let mut meta_one = MetaObject::new_meta("MetaOne").unwrap();
    meta_one.update_entity("a", MetaAttributes::Text);
    let mut meta_two = MetaObject::new_meta("MetaTwo").unwrap();
    meta_two.update_entity("a", MetaAttributes::Text);

    let template = TemplateBuilder::instanciate("[@a]", &meta_one).build().unwrap();

    let mut other_builder = InstanceObjectBuilder::new(&meta_two, "Stranger");
    other_builder.update_entity("a", Some("v")).unwrap();
    let other_instance = other_builder.build().unwrap();

    let result = template.build_from_instance(&other_instance);
    assert!(matches!(
        result,
        Err(TemplateError::UnauthrorisedActionFromMetaObject { .. })
    ));
}

#[test]
fn test_missing_meta_object_id_on_rendering() {
    let mut meta_object = MetaObject::new_meta("TestMeta").unwrap();
    meta_object.update_entity("a", MetaAttributes::Text);
    let template = TemplateBuilder::instanciate("[@a]", &meta_object).build().unwrap();

    let mut unlinked: Object<InstanceAttributes> =
        Object::new("Unlinked", "instance", None).unwrap();
    unlinked.update_entity("a", InstanceAttributes::Text(Some("v".to_string())));

    let result = template.build_from_instance(&unlinked);
    match result {
        Err(TemplateError::MissingMetaObjectId(name)) => assert_eq!(name, "Unlinked"),
        other => panic!("expected MissingMetaObjectId, got {:?}", other),
    }
}

#[test]
fn test_rendering_null_values() {
    let mut meta_object = MetaObject::new_meta("TestMeta").unwrap();
    meta_object.update_entity("a", MetaAttributes::Text);
    meta_object.update_entity("b", MetaAttributes::I16);

    let mut builder = InstanceObjectBuilder::new(&meta_object, "TestInstance");
    builder.populate_missing_meta_entites();
    let instance = builder.build().unwrap();

    let template = TemplateBuilder::instanciate("[@a] and [@b]", &meta_object).build().unwrap();
    let rendered = template.build_from_instance(&instance).unwrap();
    assert_eq!(rendered, "Null and Null");
}

#[test]
fn test_token_with_punctuation_still_matches() {
    let mut meta_object = MetaObject::new_meta("TestMeta").unwrap();
    meta_object.update_entity("x", MetaAttributes::Text);

    let mut builder = InstanceObjectBuilder::new(&meta_object, "TestInstance");
    builder.update_entity("x", Some("value")).unwrap();
    let instance = builder.build().unwrap();

    // the punctuation-glued token is cleaned for matching, and the whole
    // token is replaced by the value
    let rendered = Template::transform_content("Hello [@x], bye", &instance);
    assert_eq!(rendered, "Hello value bye");
}

#[test]
fn test_unmatched_tokens_pass_through() {
    let meta_object = MetaObject::new_meta("TestMeta").unwrap();
    let builder = InstanceObjectBuilder::new(&meta_object, "Empty");
    let instance = builder.build().unwrap();

    let rendered = Template::transform_content("no  placeholders   here", &instance);
    // tokens are rejoined with single spaces
    assert_eq!(rendered, "no placeholders here");

    let rendered = Template::transform_content("[@unknown] stays", &instance);
    assert_eq!(rendered, "[@unknown] stays");
}

#[test]
fn test_clean_word_strips_punctuation_only() {
    assert_eq!(TemplateContent::clean_word("...[@x]!!"), "[@x]");
    assert_eq!(TemplateContent::clean_word("plain"), "plain");
    assert_eq!(TemplateContent::clean_word("(word)"), "word");
    assert_eq!(TemplateContent::clean_word("---"), "");
}

#[test]
fn test_get_content_round_trip() {
    let content = TemplateContent::new("some [@a] text");
    assert_eq!(content.get_content(), "some [@a] text");
}

#[test]
fn template_valid_template_creation() {
    let mut meta_object = MetaObject::new_meta("TestMeta").unwrap();
    meta_object.update_entity("attribute1", MetaAttributes::Text);
    meta_object.update_entity("attribute2", MetaAttributes::I16);

    let mut instance_builder = InstanceObjectBuilder::new(&meta_object, "TestInstance");
    instance_builder.update_entity("attribute1", Some("value1")).unwrap();
    instance_builder.update_entity("attribute2", Some("123")).unwrap();
    let instance_object = instance_builder.build().unwrap();

    let content = "This is a test with [@attribute1] and [@attribute2]";
    let template = TemplateBuilder::instanciate(content, &meta_object).build().unwrap();
    let populated_content = template.build_from_instance(&instance_object).unwrap();

    assert_eq!(populated_content, "This is a test with value1 and 123");
}

#[test]
fn template_fail_template_creation_non_matching_entities() {
    let mut meta_object = MetaObject::new_meta("TestMeta").unwrap();
    meta_object.update_entity("attribute1", MetaAttributes::Text);
    meta_object.update_entity("attribute2", MetaAttributes::I16);

    let content = "This is a test with [@attribute1]";
    let template_result = TemplateBuilder::instanciate(content, &meta_object).build();

    assert!(matches!(
        template_result.unwrap_err(),
        TemplateError::MissingEntitiesFromMetaObject(_)
    ));
}
